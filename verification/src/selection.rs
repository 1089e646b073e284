//! The operator's preview selection: its normal form, the filter it pushes
//! down, the hash a commit must present, and what a previewed page reports.

use vstd::prelude::*;
use vstd::utf8::*;
use crate::admin::{
    DEFAULT_PREVIEW_LIMIT, MAX_PREVIEW_LIMIT, SELECTION_HASH_VERSION, WindowEnforcement,
};
use crate::prims::{
    decimal, earlier, i64_text, is_earlier, owned, render_rfc3339, rfc3339_text, sha256_hex,
    sha256_hex_of, text_eq, text_less, text_lt, trim, trim_spec, usize_text, Instant,
    lemma_left_cancel, lemma_right_cancel,
};

verus! {

/// The operator's selection. Every field is a predicate pushed into the query.
#[derive(Debug)]
pub struct Selection {
    /// Rows authored BY this key.
    pub attesting_key_id: Option<String>,
    /// Rows authored ABOUT this key.
    pub attested_key_id: Option<String>,
    /// Rows authored BY ANY of these keys (OR-combined with the singular).
    pub attesting_key_ids: Vec<String>,
    /// Rows authored ABOUT ANY of these keys.
    pub attested_key_ids: Vec<String>,
    /// `scores` / `delegates_to` / `withdraws` / …
    pub attestation_type: Option<String>,
    /// Hierarchical dimension prefixes, OR-combined.
    pub dimension_prefixes: Vec<String>,
    /// Exact dimension match.
    pub dimension_exact: Option<String>,
    /// Rows naming this subject.
    pub subject_key_id: Option<String>,
    /// Lower bound of the half-open `[after, before)` window on `asserted_at`.
    pub after: Option<Instant>,
    /// Upper bound of the window.
    pub before: Option<Instant>,
    /// Page bound, clamped to `MAX_PREVIEW_LIMIT`.
    pub limit: Option<i64>,
}

impl Default for Selection {
    fn default() -> (s: Self)
        ensures
            s.attesting_key_id is None && s.attested_key_id is None && s.attestation_type is None
                && s.dimension_exact is None && s.subject_key_id is None,
            s.attesting_key_ids@.len() == 0 && s.attested_key_ids@.len() == 0
                && s.dimension_prefixes@.len() == 0,
            s.after is None && s.before is None && s.limit is None,
    {
        Selection {
            attesting_key_id: None,
            attested_key_id: None,
            attesting_key_ids: Vec::new(),
            attested_key_ids: Vec::new(),
            attestation_type: None,
            dimension_prefixes: Vec::new(),
            dimension_exact: None,
            subject_key_id: None,
            after: None,
            before: None,
            limit: None,
        }
    }
}

/// A predicate value in normal form: trimmed, and absent when blank.
pub open spec fn norm_text(o: Option<String>) -> Option<Seq<char>> {
    match o {
        Some(s) => if trim_spec(s@).len() > 0 { Some(trim_spec(s@)) } else { None },
        None => None,
    }
}

/// An exec value carries exactly this normal form.
pub open spec fn carries(r: Option<String>, n: Option<Seq<char>>) -> bool {
    match n {
        Some(t) => r matches Some(s) && s@ == t,
        None => r is None,
    }
}

/// Trim a predicate value; a blank one is no predicate.
pub fn normalize_text(o: &Option<String>) -> (r: Option<String>)
    ensures
        carries(r, norm_text(*o)),
{
    match o {
        Some(s) => {
            let t = trim(s.as_str());
            if t.unicode_len() > 0 {
                Some(owned(t))
            } else {
                None
            }
        },
        None => None,
    }
}

/// Strictly ascending in text order — sorted, no duplicates.
pub open spec fn strictly_sorted(s: Seq<String>) -> bool {
    forall|i: int, j: int| 0 <= i < j < s.len() ==> text_less(#[trigger] s[i]@, #[trigger] s[j]@)
}

/// `y` is a non-blank trimmed member of `xs`.
pub open spec fn trimmed_member(xs: Seq<String>, y: Seq<char>) -> bool {
    y.len() > 0 && exists|i: int| 0 <= i < xs.len() && trim_spec(#[trigger] xs[i]@) == y
}

/// The set normal form: every non-blank trimmed member once, in text order.
pub open spec fn set_normal_form(out: Seq<String>, xs: Seq<String>) -> bool {
    &&& strictly_sorted(out)
    &&& forall|y: Seq<char>|
        (exists|k: int| 0 <= k < out.len() && #[trigger] out[k]@ == y) <==> trimmed_member(xs, y)
}

/// Trim, drop blanks, sort, dedupe — so two spellings of one set are one set.
pub fn normalize_set(xs: &[String]) -> (out: Vec<String>)
    ensures
        set_normal_form(out@, xs@),
{
    let n = xs.len();
    let mut out: Vec<String> = Vec::new();
    let mut i: usize = 0;
    while i < n
        invariant
            n == xs@.len(),
            0 <= i <= n,
            strictly_sorted(out@),
            forall|y: Seq<char>|
                (exists|k: int| 0 <= k < out@.len() && #[trigger] out@[k]@ == y) <==> trimmed_member(
                    xs@.take(i as int),
                    y,
                ),
        decreases n - i,
    {
        let t = trim(xs[i].as_str());
        let ghost prev = out@;
        assert(forall|q: int| 0 <= q < i ==> xs@.take(i as int)[q] == xs@.take(i + 1)[q]);
        assert(xs@.take(i + 1)[i as int] == xs@[i as int]);
        if t.unicode_len() > 0 {
            // Find the first element not below `t`.
            let m = out.len();
            let mut p: usize = 0;
            while p < m && text_lt(out[p].as_str(), t)
                invariant
                    m == out@.len(),
                    out@ == prev,
                    0 <= p <= m,
                    forall|q: int| 0 <= q < p ==> text_less(#[trigger] out@[q]@, t@),
                decreases m - p,
            {
                p = p + 1;
            }
            let present = p < m && text_eq(out[p].as_str(), t);
            if !present {
                proof {
                    if p < m {
                        crate::admin::lemma_text_less_total(out@[p as int]@, t@);
                        assert(text_less(t@, prev[p as int]@));
                        assert forall|q: int| p <= q < m implies text_less(t@, #[trigger] prev[q]@) by {
                            if q > p {
                                crate::admin::lemma_text_less_transitive(t@, prev[p as int]@, prev[q]@);
                            }
                        }
                    }
                }
                out.insert(p, owned(t));
                proof {
                    assert forall|a: int, b: int| 0 <= a < b < out@.len() implies text_less(
                        #[trigger] out@[a]@,
                        #[trigger] out@[b]@,
                    ) by {
                        if a < p && b > p {
                            assert(out@[a] == prev[a]);
                            assert(out@[b] == prev[b - 1]);
                        } else if a == p {
                            assert(out@[b] == prev[b - 1]);
                        } else if b == p {
                            assert(out@[a] == prev[a]);
                        } else if a > p {
                            assert(out@[a] == prev[a - 1]);
                            assert(out@[b] == prev[b - 1]);
                        } else {
                            assert(out@[a] == prev[a]);
                            assert(out@[b] == prev[b]);
                        }
                    }
                    assert forall|y: Seq<char>|
                        (exists|k: int| 0 <= k < out@.len() && #[trigger] out@[k]@ == y)
                            <==> #[trigger] trimmed_member(xs@.take(i + 1), y) by {
                        if exists|k: int| 0 <= k < out@.len() && #[trigger] out@[k]@ == y {
                            let k = choose|k: int| 0 <= k < out@.len() && #[trigger] out@[k]@ == y;
                            if k != p {
                                if k < p {
                                    assert(prev[k]@ == y);
                                } else {
                                    assert(prev[k - 1]@ == y);
                                }
                                assert(trimmed_member(xs@.take(i as int), y));
                                let q = choose|q: int|
                                    0 <= q < i && trim_spec(#[trigger] xs@.take(i as int)[q]@) == y;
                                assert(xs@.take(i + 1)[q] == xs@.take(i as int)[q]);
                            } else {
                                assert(trim_spec(xs@.take(i + 1)[i as int]@) == y);
                            }
                        }
                        if trimmed_member(xs@.take(i + 1), y) {
                            let q = choose|q: int|
                                0 <= q < i + 1 && trim_spec(#[trigger] xs@.take(i + 1)[q]@) == y;
                            if q < i {
                                assert(xs@.take(i as int)[q] == xs@.take(i + 1)[q]);
                                assert(trimmed_member(xs@.take(i as int), y));
                                let k = choose|k: int|
                                    0 <= k < prev.len() && #[trigger] prev[k]@ == y;
                                if k < p {
                                    assert(out@[k]@ == y);
                                } else {
                                    assert(out@[k + 1]@ == y);
                                }
                            } else {
                                assert(out@[p as int]@ == y);
                            }
                        }
                    }
                }
            } else {
                proof {
                    assert forall|y: Seq<char>|
                        (exists|k: int| 0 <= k < out@.len() && #[trigger] out@[k]@ == y)
                            <==> #[trigger] trimmed_member(xs@.take(i + 1), y) by {
                        if trimmed_member(xs@.take(i + 1), y) {
                            let q = choose|q: int|
                                0 <= q < i + 1 && trim_spec(#[trigger] xs@.take(i + 1)[q]@) == y;
                            if q < i {
                                assert(xs@.take(i as int)[q] == xs@.take(i + 1)[q]);
                                assert(trimmed_member(xs@.take(i as int), y));
                            } else {
                                assert(out@[p as int]@ == y);
                            }
                        }
                        if exists|k: int| 0 <= k < out@.len() && #[trigger] out@[k]@ == y {
                            assert(trimmed_member(xs@.take(i as int), y));
                            let q = choose|q: int|
                                0 <= q < i && trim_spec(#[trigger] xs@.take(i as int)[q]@) == y;
                            assert(xs@.take(i + 1)[q] == xs@.take(i as int)[q]);
                        }
                    }
                }
            }
        } else {
            proof {
                assert forall|y: Seq<char>|
                    (exists|k: int| 0 <= k < out@.len() && #[trigger] out@[k]@ == y)
                        <==> #[trigger] trimmed_member(xs@.take(i + 1), y) by {
                    if trimmed_member(xs@.take(i + 1), y) {
                        let q = choose|q: int|
                            0 <= q < i + 1 && trim_spec(#[trigger] xs@.take(i + 1)[q]@) == y;
                        assert(q < i);
                        assert(xs@.take(i as int)[q] == xs@.take(i + 1)[q]);
                        assert(trimmed_member(xs@.take(i as int), y));
                    }
                    if exists|k: int| 0 <= k < out@.len() && #[trigger] out@[k]@ == y {
                        assert(trimmed_member(xs@.take(i as int), y));
                        let q = choose|q: int|
                            0 <= q < i && trim_spec(#[trigger] xs@.take(i as int)[q]@) == y;
                        assert(xs@.take(i + 1)[q] == xs@.take(i as int)[q]);
                    }
                }
            }
        }
        i = i + 1;
    }
    assert(xs@.take(n as int) =~= xs@);
    out
}


/// No non-blank member at all.
pub open spec fn no_members(xs: Seq<String>) -> bool {
    forall|y: Seq<char>| !#[trigger] trimmed_member(xs, y)
}

/// A text that names something once trimmed.
pub open spec fn names_something(o: Option<String>) -> bool {
    o matches Some(t) && trim_spec(t@).len() > 0
}

/// Naming any one predicate — a key, a type, a dimension, a subject, a
/// non-blank member of any set, either end of the window — means the
/// selection is not the whole corpus.
pub proof fn a_named_predicate_is_never_the_whole_corpus(s: Selection, y: Seq<char>)
    ensures
        names_something(s.attesting_key_id) ==> !s.unpredicated(),
        names_something(s.attested_key_id) ==> !s.unpredicated(),
        names_something(s.attestation_type) ==> !s.unpredicated(),
        names_something(s.dimension_exact) ==> !s.unpredicated(),
        names_something(s.subject_key_id) ==> !s.unpredicated(),
        trimmed_member(s.attesting_key_ids@, y) ==> !s.unpredicated(),
        trimmed_member(s.attested_key_ids@, y) ==> !s.unpredicated(),
        trimmed_member(s.dimension_prefixes@, y) ==> !s.unpredicated(),
        s.after is Some ==> !s.unpredicated(),
        s.before is Some ==> !s.unpredicated(),
{
}

/// A set in normal form is empty exactly when the raw set has no member.
pub proof fn lemma_normal_form_empty(out: Seq<String>, xs: Seq<String>)
    requires
        set_normal_form(out, xs),
    ensures
        out.len() == 0 <==> no_members(xs),
{
    if out.len() > 0 {
        assert(out[0]@ == out[0]@);
        assert(trimmed_member(xs, out[0]@));
    } else {
        assert forall|y: Seq<char>| !#[trigger] trimmed_member(xs, y) by {
            if trimmed_member(xs, y) {
                let k = choose|k: int| 0 <= k < out.len() && #[trigger] out[k]@ == y;
            }
        }
    }
}

/// The page bound a selection asks for: its limit (default 500), clamped to
/// `[1, 2000]`.
pub open spec fn effective_limit_spec(limit: Option<i64>) -> i64 {
    let x = match limit {
        Some(l) => l,
        None => DEFAULT_PREVIEW_LIMIT,
    };
    if x < 1 { 1 } else if x > MAX_PREVIEW_LIMIT { MAX_PREVIEW_LIMIT } else { x }
}

/// The first `before` instant strictly above every four-digit-year instant the
/// substrate's text comparison can order: `9999-12-31T23:59:59Z`.
pub open spec fn open_upper_bound_spec() -> Instant {
    Instant { secs: 253402300799, nanos: 0 }
}

/// The lower twin: `0000-01-01T00:00:00Z`.
pub open spec fn open_lower_bound_spec() -> Instant {
    Instant { secs: -62167219200i64, nanos: 0 }
}

/// The open upper side of a one-sided window (`9999-12-31T23:59:59Z`), kept
/// inside the four-digit-year range where text order and time order agree.
pub fn open_upper_bound() -> (t: Instant)
    ensures
        t == open_upper_bound_spec(),
{
    Instant { secs: 253402300799, nanos: 0 }
}

/// The open lower side of a one-sided window (`0000-01-01T00:00:00Z`).
pub fn open_lower_bound() -> (t: Instant)
    ensures
        t == open_lower_bound_spec(),
{
    Instant { secs: -62167219200i64, nanos: 0 }
}

/// The push-down filter a selection builds.
#[derive(Debug)]
pub struct FilterSpec {
    pub attesting_key_id: Option<String>,
    pub attested_key_id: Option<String>,
    pub attesting_key_ids: Vec<String>,
    pub attested_key_ids: Vec<String>,
    pub attestation_type: Option<String>,
    pub dimension_prefixes: Vec<String>,
    pub dimension_exact: Option<String>,
    pub subject_key_id: Option<String>,
    /// The closed `(start, end)` window, open sides filled with the sentinels.
    pub window: Option<(Instant, Instant)>,
}

/// The window a selection pushes down.
pub open spec fn window_spec(after: Option<Instant>, before: Option<Instant>) -> Option<(Instant, Instant)> {
    if after is None && before is None {
        None
    } else {
        Some(
            (
                match after {
                    Some(a) => a,
                    None => open_lower_bound_spec(),
                },
                match before {
                    Some(b) => b,
                    None => open_upper_bound_spec(),
                },
            ),
        )
    }
}

impl Selection {
    /// The selection is in normal form with respect to `raw`.
    pub open spec fn normal_form_of(self, raw: Selection) -> bool {
        &&& carries(self.attesting_key_id, norm_text(raw.attesting_key_id))
        &&& carries(self.attested_key_id, norm_text(raw.attested_key_id))
        &&& set_normal_form(self.attesting_key_ids@, raw.attesting_key_ids@)
        &&& set_normal_form(self.attested_key_ids@, raw.attested_key_ids@)
        &&& carries(self.attestation_type, norm_text(raw.attestation_type))
        &&& set_normal_form(self.dimension_prefixes@, raw.dimension_prefixes@)
        &&& carries(self.dimension_exact, norm_text(raw.dimension_exact))
        &&& carries(self.subject_key_id, norm_text(raw.subject_key_id))
        &&& self.after == raw.after
        &&& self.before == raw.before
        &&& self.limit == Some(effective_limit_spec(raw.limit))
    }

    /// The selection names no predicate at all — "the whole corpus".
    pub open spec fn unpredicated(self) -> bool {
        &&& norm_text(self.attesting_key_id) is None
        &&& norm_text(self.attested_key_id) is None
        &&& no_members(self.attesting_key_ids@)
        &&& no_members(self.attested_key_ids@)
        &&& norm_text(self.attestation_type) is None
        &&& no_members(self.dimension_prefixes@)
        &&& norm_text(self.dimension_exact) is None
        &&& norm_text(self.subject_key_id) is None
        &&& self.after is None
        &&& self.before is None
    }

    /// The page bound: the limit (default 500) clamped to `[1, 2000]`.
    pub fn effective_limit(&self) -> (l: i64)
        ensures
            l == effective_limit_spec(self.limit),
            1 <= l <= MAX_PREVIEW_LIMIT,
    {
        let x = match self.limit {
            Some(l) => l,
            None => DEFAULT_PREVIEW_LIMIT,
        };
        if x < 1 {
            1
        } else if x > MAX_PREVIEW_LIMIT {
            MAX_PREVIEW_LIMIT
        } else {
            x
        }
    }

    /// Trim / drop-empty / sort / dedupe, so two spellings of one selection
    /// hash identically.
    pub fn normalized(&self) -> (n: Selection)
        ensures
            n.normal_form_of(*self),
    {
        Selection {
            attesting_key_id: normalize_text(&self.attesting_key_id),
            attested_key_id: normalize_text(&self.attested_key_id),
            attesting_key_ids: normalize_set(self.attesting_key_ids.as_slice()),
            attested_key_ids: normalize_set(self.attested_key_ids.as_slice()),
            attestation_type: normalize_text(&self.attestation_type),
            dimension_prefixes: normalize_set(self.dimension_prefixes.as_slice()),
            dimension_exact: normalize_text(&self.dimension_exact),
            subject_key_id: normalize_text(&self.subject_key_id),
            after: self.after,
            before: self.before,
            limit: Some(self.effective_limit()),
        }
    }

    /// Is this selection empty of every predicate? A blank value, or a set of
    /// blanks, predicates nothing.
    pub fn is_unpredicated(&self) -> (b: bool)
        ensures
            b == self.unpredicated(),
    {
        let n = self.normalized();
        proof {
            lemma_normal_form_empty(n.attesting_key_ids@, self.attesting_key_ids@);
            lemma_normal_form_empty(n.attested_key_ids@, self.attested_key_ids@);
            lemma_normal_form_empty(n.dimension_prefixes@, self.dimension_prefixes@);
        }
        n.attesting_key_id.is_none() && n.attested_key_id.is_none() && n.attesting_key_ids.len()
            == 0 && n.attested_key_ids.len() == 0 && n.attestation_type.is_none()
            && n.dimension_prefixes.len() == 0 && n.dimension_exact.is_none()
            && n.subject_key_id.is_none() && n.after.is_none() && n.before.is_none()
    }

    /// The push-down: every normalized predicate, and the window as a closed
    /// pair with the open side filled by the in-range sentinels.
    pub fn to_filter(&self) -> (f: FilterSpec)
        ensures
            carries(f.attesting_key_id, norm_text(self.attesting_key_id)),
            carries(f.attested_key_id, norm_text(self.attested_key_id)),
            set_normal_form(f.attesting_key_ids@, self.attesting_key_ids@),
            set_normal_form(f.attested_key_ids@, self.attested_key_ids@),
            carries(f.attestation_type, norm_text(self.attestation_type)),
            set_normal_form(f.dimension_prefixes@, self.dimension_prefixes@),
            carries(f.dimension_exact, norm_text(self.dimension_exact)),
            carries(f.subject_key_id, norm_text(self.subject_key_id)),
            f.window == window_spec(self.after, self.before),
    {
        let n = self.normalized();
        let window = match (n.after, n.before) {
            (None, None) => None,
            (a, b) => Some(
                (
                    match a {
                        Some(x) => x,
                        None => open_lower_bound(),
                    },
                    match b {
                        Some(x) => x,
                        None => open_upper_bound(),
                    },
                ),
            ),
        };
        FilterSpec {
            attesting_key_id: n.attesting_key_id,
            attested_key_id: n.attested_key_id,
            attesting_key_ids: n.attesting_key_ids,
            attested_key_ids: n.attested_key_ids,
            attestation_type: n.attestation_type,
            dimension_prefixes: n.dimension_prefixes,
            dimension_exact: n.dimension_exact,
            subject_key_id: n.subject_key_id,
            window,
        }
    }
}


// ─── The selection hash ─────────────────────────────────────────────────────

/// The texts of a sequence of strings.
pub open spec fn views(s: Seq<String>) -> Seq<Seq<char>> {
    s.map_values(|x: String| x@)
}

/// Where `x` goes in the ascending `t`: before the first element above it.
pub open spec fn insert_pos(t: Seq<Seq<char>>, x: Seq<char>) -> int
    decreases t.len(),
{
    if t.len() == 0 {
        0
    } else if text_less(x, t[0]) {
        0
    } else {
        1 + insert_pos(t.drop_first(), x)
    }
}

/// Ascending insertion sort of texts (equal texts keep their arrival order).
pub open spec fn text_sort(s: Seq<Seq<char>>) -> Seq<Seq<char>>
    decreases s.len(),
{
    if s.len() == 0 {
        Seq::empty()
    } else {
        let t = text_sort(s.drop_last());
        t.insert(insert_pos(t, s.last()), s.last())
    }
}

/// The scan's stopping point is `insert_pos`.
proof fn lemma_insert_pos(t: Seq<Seq<char>>, x: Seq<char>, p: int)
    requires
        0 <= p <= t.len(),
        forall|q: int| 0 <= q < p ==> !text_less(x, #[trigger] t[q]),
        p < t.len() ==> text_less(x, t[p]),
    ensures
        insert_pos(t, x) == p,
    decreases t.len(),
{
    if t.len() > 0 && p > 0 {
        assert(!text_less(x, t[0]));
        assert forall|q: int| 0 <= q < p - 1 implies !text_less(x, #[trigger] t.drop_first()[q]) by {
            assert(t.drop_first()[q] == t[q + 1]);
        }
        if p < t.len() {
            assert(t.drop_first()[p - 1] == t[p]);
        }
        lemma_insert_pos(t.drop_first(), x, p - 1);
    }
}

/// `a` sorts no later than `b`.
pub open spec fn text_le(a: Seq<char>, b: Seq<char>) -> bool {
    !text_less(b, a)
}

/// The texts are in ascending order.
pub open spec fn sorted_texts(t: Seq<Seq<char>>) -> bool {
    forall|i: int, j: int| 0 <= i < j < t.len() ==> text_le(#[trigger] t[i], #[trigger] t[j])
}

/// `insert_pos` stops after every element not above `x`, at the first above.
proof fn lemma_insert_pos_bounds(t: Seq<Seq<char>>, x: Seq<char>)
    ensures
        0 <= insert_pos(t, x) <= t.len(),
        forall|q: int| 0 <= q < insert_pos(t, x) ==> !text_less(x, #[trigger] t[q]),
        insert_pos(t, x) < t.len() ==> text_less(x, t[insert_pos(t, x)]),
    decreases t.len(),
{
    if t.len() > 0 && !text_less(x, t[0]) {
        lemma_insert_pos_bounds(t.drop_first(), x);
        assert forall|q: int| 0 <= q < insert_pos(t, x) implies !text_less(x, #[trigger] t[q]) by {
            if q > 0 {
                assert(t[q] == t.drop_first()[q - 1]);
            }
        }
        if insert_pos(t, x) < t.len() {
            assert(t[insert_pos(t, x)] == t.drop_first()[insert_pos(t, x) - 1]);
        }
    }
}

/// `text_le` chains.
proof fn lemma_text_le_transitive(a: Seq<char>, b: Seq<char>, c: Seq<char>)
    requires
        text_le(a, b),
        text_le(b, c),
    ensures
        text_le(a, c),
{
    crate::admin::lemma_text_less_total(a, b);
    crate::admin::lemma_text_less_total(b, c);
    if text_less(c, a) {
        if a == b {
            assert(text_less(c, b));
        } else if b == c {
            assert(text_less(b, a));
        } else {
            crate::admin::lemma_text_less_transitive(a, b, c);
            crate::admin::lemma_text_less_transitive(c, a, b);
            crate::admin::lemma_text_less_transitive(c, b, c);
            crate::admin::lemma_text_less_irreflexive(c);
        }
    }
}

/// The sort is ascending and a permutation of its input.
pub proof fn lemma_text_sort(s: Seq<Seq<char>>)
    ensures
        sorted_texts(text_sort(s)),
        text_sort(s).to_multiset() == s.to_multiset(),
    decreases s.len(),
{
    broadcast use vstd::seq_lib::group_to_multiset_ensures;

    if s.len() > 0 {
        let t = text_sort(s.drop_last());
        lemma_text_sort(s.drop_last());
        let x = s.last();
        let p = insert_pos(t, x);
        lemma_insert_pos_bounds(t, x);
        let u = t.insert(p, x);
        assert(u == text_sort(s));
        assert forall|i: int, j: int| 0 <= i < j < u.len() implies text_le(
            #[trigger] u[i],
            #[trigger] u[j],
        ) by {
            if i == p {
                assert(u[j] == t[j - 1]);
                if j - 1 > p {
                    assert(text_le(t[p], t[j - 1]));
                }
                assert(text_le(x, t[p])) by {
                    crate::admin::lemma_text_less_total(x, t[p]);
                    if text_less(t[p], x) {
                        crate::admin::lemma_text_less_transitive(x, t[p], x);
                        crate::admin::lemma_text_less_irreflexive(x);
                    }
                }
                if j - 1 > p {
                    lemma_text_le_transitive(x, t[p], t[j - 1]);
                }
            } else if j == p {
                assert(u[i] == t[i]);
            } else if j < p {
                assert(u[i] == t[i] && u[j] == t[j]);
            } else if i < p {
                assert(u[i] == t[i] && u[j] == t[j - 1]);
            } else {
                assert(u[i] == t[i - 1] && u[j] == t[j - 1]);
            }
        }
        assert(s =~= s.drop_last().push(x));
        vstd::seq_lib::to_multiset_insert(t, p, x);
    } else {
        assert(text_sort(s).to_multiset() =~= s.to_multiset());
    }
}

/// Two ascending sequences with the same members, counted, are one sequence.
pub proof fn lemma_sorted_unique(a: Seq<Seq<char>>, b: Seq<Seq<char>>)
    requires
        sorted_texts(a),
        sorted_texts(b),
        a.to_multiset() == b.to_multiset(),
    ensures
        a == b,
    decreases a.len(),
{
    broadcast use vstd::seq_lib::group_to_multiset_ensures;

    vstd::seq_lib::to_multiset_len(a);
    vstd::seq_lib::to_multiset_len(b);
    if a.len() == 0 {
        assert(a =~= b);
    } else {
        assert(a.to_multiset().count(a[0]) > 0);
        assert(b.contains(a[0]));
        let k = choose|k: int| 0 <= k < b.len() && b[k] == a[0];
        assert(b.to_multiset().count(b[0]) > 0);
        assert(a.contains(b[0]));
        let l = choose|l: int| 0 <= l < a.len() && a[l] == b[0];
        assert(text_le(b[0], a[0])) by {
            if k > 0 {
                assert(text_le(b[0], b[k]));
            } else {
                crate::admin::lemma_text_less_irreflexive(b[0]);
            }
        }
        assert(text_le(a[0], b[0])) by {
            if l > 0 {
                assert(text_le(a[0], a[l]));
            } else {
                crate::admin::lemma_text_less_irreflexive(a[0]);
            }
        }
        crate::admin::lemma_text_less_total(a[0], b[0]);
        assert(a[0] == b[0]);
        assert(a.remove(0) =~= a.drop_first());
        assert(b.remove(0) =~= b.drop_first());
        assert(a.drop_first().to_multiset() == b.drop_first().to_multiset()) by {
            vstd::seq_lib::to_multiset_remove(a, 0);
            vstd::seq_lib::to_multiset_remove(b, 0);
        }
        assert(sorted_texts(a.drop_first())) by {
            assert forall|i: int, j: int| 0 <= i < j < a.drop_first().len() implies text_le(
                #[trigger] a.drop_first()[i],
                #[trigger] a.drop_first()[j],
            ) by {
                assert(text_le(a[i + 1], a[j + 1]));
            }
        }
        assert(sorted_texts(b.drop_first())) by {
            assert forall|i: int, j: int| 0 <= i < j < b.drop_first().len() implies text_le(
                #[trigger] b.drop_first()[i],
                #[trigger] b.drop_first()[j],
            ) by {
                assert(text_le(b[i + 1], b[j + 1]));
            }
        }
        lemma_sorted_unique(a.drop_first(), b.drop_first());
        assert(a =~= b) by {
            assert forall|i: int| 0 <= i < a.len() implies a[i] == b[i] by {
                if i > 0 {
                    assert(a[i] == a.drop_first()[i - 1]);
                    assert(b[i] == b.drop_first()[i - 1]);
                }
            }
        }
    }
}

/// The selection hash is a function of the returned row set (with its
/// multiplicities) and never of the order the rows were paged in: two id
/// lists holding the same ids give the same hash.
pub proof fn the_selection_hash_ignores_row_order(sel: Selection, a: Seq<String>, b: Seq<String>, h: Seq<char>)
    requires
        views(a).to_multiset() == views(b).to_multiset(),
        selection_hash_of(sel, a, h),
    ensures
        selection_hash_of(sel, b, h),
{
    lemma_text_sort(views(a));
    lemma_text_sort(views(b));
    lemma_sorted_unique(text_sort(views(a)), text_sort(views(b)));
    let n = choose|n: Selection|
        n.normal_form_of(sel) && h == sha256_hex(
            encode_utf8(#[trigger] selection_preimage(n, text_sort(views(a)))),
        );
    assert(selection_preimage(n, text_sort(views(b))) == selection_preimage(n, text_sort(views(a))));
}

/// Two strictly ascending sequences of texts with the same members are one
/// sequence.
proof fn lemma_strictly_sorted_unique(a: Seq<Seq<char>>, b: Seq<Seq<char>>)
    requires
        forall|i: int, j: int| 0 <= i < j < a.len() ==> text_less(#[trigger] a[i], #[trigger] a[j]),
        forall|i: int, j: int| 0 <= i < j < b.len() ==> text_less(#[trigger] b[i], #[trigger] b[j]),
        forall|y: Seq<char>| a.contains(y) <==> b.contains(y),
    ensures
        a == b,
    decreases a.len(),
{
    if a.len() == 0 {
        if b.len() > 0 {
            assert(b.contains(b[0]));
        }
        assert(a =~= b);
    } else {
        assert(a.contains(a[0]));
        assert(b.contains(a[0]));
        let k = choose|k: int| 0 <= k < b.len() && b[k] == a[0];
        assert(b.contains(b[0]));
        assert(a.contains(b[0]));
        let l = choose|l: int| 0 <= l < a.len() && a[l] == b[0];
        if k > 0 && l > 0 {
            assert(text_less(b[0], b[k]));
            assert(text_less(a[0], a[l]));
            crate::admin::lemma_text_less_transitive(a[0], b[0], a[0]);
            crate::admin::lemma_text_less_irreflexive(a[0]);
        }
        assert(a[0] == b[0]);
        let a1 = a.drop_first();
        let b1 = b.drop_first();
        assert forall|y: Seq<char>| a1.contains(y) <==> b1.contains(y) by {
            if a1.contains(y) {
                let i = choose|i: int| 0 <= i < a1.len() && a1[i] == y;
                assert(a[i + 1] == y);
                assert(text_less(a[0], a[i + 1]));
                crate::admin::lemma_text_less_irreflexive(a[0]);
                assert(a.contains(y));
                assert(b.contains(y));
                let j = choose|j: int| 0 <= j < b.len() && b[j] == y;
                assert(j != 0);
                assert(b1[j - 1] == y);
            }
            if b1.contains(y) {
                let i = choose|i: int| 0 <= i < b1.len() && b1[i] == y;
                assert(b[i + 1] == y);
                assert(text_less(b[0], b[i + 1]));
                crate::admin::lemma_text_less_irreflexive(b[0]);
                assert(b.contains(y));
                assert(a.contains(y));
                let j = choose|j: int| 0 <= j < a.len() && a[j] == y;
                assert(j != 0);
                assert(a1[j - 1] == y);
            }
        }
        assert forall|i: int, j: int| 0 <= i < j < a1.len() implies text_less(
            #[trigger] a1[i],
            #[trigger] a1[j],
        ) by {
            assert(text_less(a[i + 1], a[j + 1]));
        }
        assert forall|i: int, j: int| 0 <= i < j < b1.len() implies text_less(
            #[trigger] b1[i],
            #[trigger] b1[j],
        ) by {
            assert(text_less(b[i + 1], b[j + 1]));
        }
        lemma_strictly_sorted_unique(a1, b1);
        assert(a =~= b) by {
            assert forall|i: int| 0 <= i < a.len() implies a[i] == b[i] by {
                if i > 0 {
                    assert(a[i] == a1[i - 1]);
                    assert(b[i] == b1[i - 1]);
                }
            }
        }
    }
}

/// Two sets in normal form over lists with the same non-blank trimmed
/// members hold the same texts in the same order.
pub(crate) proof fn lemma_set_normal_form_unique(out1: Seq<String>, xs1: Seq<String>, out2: Seq<String>, xs2: Seq<String>)
    requires
        set_normal_form(out1, xs1),
        set_normal_form(out2, xs2),
        forall|y: Seq<char>| trimmed_member(xs1, y) <==> trimmed_member(xs2, y),
    ensures
        views(out1) == views(out2),
{
    let a = views(out1);
    let b = views(out2);
    assert forall|i: int, j: int| 0 <= i < j < a.len() implies text_less(#[trigger] a[i], #[trigger] a[j]) by {
        assert(text_less(out1[i]@, out1[j]@));
    }
    assert forall|i: int, j: int| 0 <= i < j < b.len() implies text_less(#[trigger] b[i], #[trigger] b[j]) by {
        assert(text_less(out2[i]@, out2[j]@));
    }
    assert forall|y: Seq<char>| a.contains(y) <==> b.contains(y) by {
        if a.contains(y) {
            let k = choose|k: int| 0 <= k < a.len() && a[k] == y;
            assert(out1[k]@ == y);
            assert(trimmed_member(xs2, y));
            let m = choose|m: int| 0 <= m < out2.len() && #[trigger] out2[m]@ == y;
            assert(b[m] == y);
        }
        if b.contains(y) {
            let k = choose|k: int| 0 <= k < b.len() && b[k] == y;
            assert(out2[k]@ == y);
            assert(trimmed_member(xs1, y));
            let m = choose|m: int| 0 <= m < out1.len() && #[trigger] out1[m]@ == y;
            assert(a[m] == y);
        }
    }
    lemma_strictly_sorted_unique(a, b);
}

/// Two selections ask the same question: every predicate agrees once
/// trimmed (blank is absent), every key-id set and prefix set holds the same
/// non-blank trimmed members, the window is the same, and the page bound
/// clamps to the same value.
pub open spec fn same_question(s1: Selection, s2: Selection) -> bool {
    &&& norm_text(s1.attesting_key_id) == norm_text(s2.attesting_key_id)
    &&& norm_text(s1.attested_key_id) == norm_text(s2.attested_key_id)
    &&& norm_text(s1.attestation_type) == norm_text(s2.attestation_type)
    &&& norm_text(s1.dimension_exact) == norm_text(s2.dimension_exact)
    &&& norm_text(s1.subject_key_id) == norm_text(s2.subject_key_id)
    &&& forall|y: Seq<char>|
        trimmed_member(s1.attesting_key_ids@, y) <==> trimmed_member(s2.attesting_key_ids@, y)
    &&& forall|y: Seq<char>|
        trimmed_member(s1.attested_key_ids@, y) <==> trimmed_member(s2.attested_key_ids@, y)
    &&& forall|y: Seq<char>|
        trimmed_member(s1.dimension_prefixes@, y) <==> trimmed_member(s2.dimension_prefixes@, y)
    &&& s1.after == s2.after
    &&& s1.before == s2.before
    &&& effective_limit_spec(s1.limit) == effective_limit_spec(s2.limit)
}

/// The selection hash is a function of the question asked and the rows it
/// returned: two selections that differ only in spelling (whitespace, blank
/// members, repeats, member order, an unclamped limit) hash alike over the
/// same rows.
pub proof fn the_selection_hash_depends_only_on_the_question(
    s1: Selection,
    s2: Selection,
    row_ids: Seq<String>,
    h1: Seq<char>,
    h2: Seq<char>,
)
    requires
        same_question(s1, s2),
        selection_hash_of(s1, row_ids, h1),
        selection_hash_of(s2, row_ids, h2),
    ensures
        h1 == h2,
{
    let rows = text_sort(views(row_ids));
    let n1 = choose|n: Selection|
        n.normal_form_of(s1) && h1 == sha256_hex(encode_utf8(#[trigger] selection_preimage(n, rows)));
    let n2 = choose|n: Selection|
        n.normal_form_of(s2) && h2 == sha256_hex(encode_utf8(#[trigger] selection_preimage(n, rows)));
    lemma_set_normal_form_unique(
        n1.attesting_key_ids@,
        s1.attesting_key_ids@,
        n2.attesting_key_ids@,
        s2.attesting_key_ids@,
    );
    lemma_set_normal_form_unique(
        n1.attested_key_ids@,
        s1.attested_key_ids@,
        n2.attested_key_ids@,
        s2.attested_key_ids@,
    );
    lemma_set_normal_form_unique(
        n1.dimension_prefixes@,
        s1.dimension_prefixes@,
        n2.dimension_prefixes@,
        s2.dimension_prefixes@,
    );
    assert(value_text(n1.attesting_key_id) == value_text(n2.attesting_key_id));
    assert(value_text(n1.attested_key_id) == value_text(n2.attested_key_id));
    assert(value_text(n1.attestation_type) == value_text(n2.attestation_type));
    assert(value_text(n1.dimension_exact) == value_text(n2.dimension_exact));
    assert(value_text(n1.subject_key_id) == value_text(n2.subject_key_id));
    assert(selection_preimage(n1, rows) == selection_preimage(n2, rows));
}

/// The row ids in ascending text order, duplicates kept.
pub fn sorted_ids(ids: &[String]) -> (out: Vec<String>)
    ensures
        views(out@) == text_sort(views(ids@)),
{
    let n = ids.len();
    let mut out: Vec<String> = Vec::new();
    let mut i: usize = 0;
    while i < n
        invariant
            n == ids@.len(),
            0 <= i <= n,
            views(out@) == text_sort(views(ids@.take(i as int))),
        decreases n - i,
    {
        let x = ids[i].as_str();
        let m = out.len();
        let mut p: usize = 0;
        while p < m && !text_lt(x, out[p].as_str())
            invariant
                m == out@.len(),
                0 <= p <= m,
                forall|q: int| 0 <= q < p ==> !text_less(x@, #[trigger] views(out@)[q]),
            decreases m - p,
        {
            p = p + 1;
        }
        proof {
            assert(views(ids@.take(i + 1)).drop_last() =~= views(ids@.take(i as int)));
            assert(views(ids@.take(i + 1)).last() == x@);
            lemma_insert_pos(views(out@), x@, p as int);
        }
        let ghost before = out@;
        out.insert(p, ids[i].clone());
        proof {
            assert(views(out@) =~= views(before).insert(p as int, x@));
        }
        i = i + 1;
    }
    assert(ids@.take(n as int) =~= ids@);
    out
}

/// A predicate value as it enters the preimage: its text, or `-` when absent.
pub open spec fn value_text(o: Option<String>) -> Seq<char> {
    match o {
        Some(s) => s@,
        None => "-"@,
    }
}

/// An instant as it enters the preimage: its `to_rfc3339()` text, or `-`.
pub open spec fn instant_value_text(o: Option<Instant>) -> Seq<char> {
    match o {
        Some(t) => match rfc3339_text(t.secs, t.nanos) {
            Some(s) => s,
            None => "-"@,
        },
        None => "-"@,
    }
}

/// One `tag=value` line per value, in order.
pub open spec fn tagged_lines(tag: Seq<char>, xs: Seq<Seq<char>>) -> Seq<char>
    decreases xs.len(),
{
    if xs.len() == 0 {
        Seq::empty()
    } else {
        tagged_lines(tag, xs.drop_last()) + tag + xs.last() + "\n"@
    }
}

/// The versioned preimage over a normalized selection and its rows.
pub open spec fn selection_preimage(n: Selection, rows: Seq<Seq<char>>) -> Seq<char> {
    SELECTION_HASH_VERSION@ + "\n"@ + "attesting="@ + value_text(n.attesting_key_id) + "\n"@
        + "attested="@ + value_text(n.attested_key_id) + "\n"@ + "type="@ + value_text(
        n.attestation_type,
    ) + "\n"@ + "dimension_exact="@ + value_text(n.dimension_exact) + "\n"@ + "subject="@
        + value_text(n.subject_key_id) + "\n"@ + "after="@ + instant_value_text(n.after) + "\n"@
        + "before="@ + instant_value_text(n.before) + "\n"@ + "limit="@ + decimal(
        effective_limit_spec(n.limit) as nat,
    ) + "\n"@ + tagged_lines("prefix="@, views(n.dimension_prefixes@)) + tagged_lines(
        "attesting="@,
        views(n.attesting_key_ids@),
    ) + tagged_lines("attested="@, views(n.attested_key_ids@)) + "rows="@ + decimal(
        rows.len(),
    ) + "\n"@ + tagged_lines("row="@, rows)
}

/// The preimage names the subject: two normalized selections that agree on
/// every other predicate, over the same rows, have different preimages
/// whenever their subject lines differ (an absent subject reads `-`).
pub proof fn the_preimage_names_the_subject(n1: Selection, n2: Selection, rows: Seq<Seq<char>>)
    requires
        n1.attesting_key_id == n2.attesting_key_id,
        n1.attested_key_id == n2.attested_key_id,
        n1.attestation_type == n2.attestation_type,
        n1.dimension_exact == n2.dimension_exact,
        n1.after == n2.after,
        n1.before == n2.before,
        n1.limit == n2.limit,
        n1.dimension_prefixes@ == n2.dimension_prefixes@,
        n1.attesting_key_ids@ == n2.attesting_key_ids@,
        n1.attested_key_ids@ == n2.attested_key_ids@,
        value_text(n1.subject_key_id) != value_text(n2.subject_key_id),
    ensures
        selection_preimage(n1, rows) != selection_preimage(n2, rows),
{
    let nl = "\n"@;
    let head = SELECTION_HASH_VERSION@ + nl + "attesting="@ + value_text(n1.attesting_key_id) + nl
        + "attested="@ + value_text(n1.attested_key_id) + nl + "type="@ + value_text(
        n1.attestation_type,
    ) + nl + "dimension_exact="@ + value_text(n1.dimension_exact) + nl + "subject="@;
    let (v1, v2) = (value_text(n1.subject_key_id), value_text(n2.subject_key_id));
    let (k_after, k_before, k_limit, k_rows) = ("after="@, "before="@, "limit="@, "rows="@);
    let after = instant_value_text(n1.after);
    let before = instant_value_text(n1.before);
    let limit = decimal(effective_limit_spec(n1.limit) as nat);
    let prefixes = tagged_lines("prefix="@, views(n1.dimension_prefixes@));
    let attesting_set = tagged_lines("attesting="@, views(n1.attesting_key_ids@));
    let attested_set = tagged_lines("attested="@, views(n1.attested_key_ids@));
    let count = decimal(rows.len());
    let row_lines = tagged_lines("row="@, rows);
    if selection_preimage(n1, rows) == selection_preimage(n2, rows) {
        lemma_right_cancel(
            head + v1 + nl + k_after + after + nl + k_before + before + nl + k_limit + limit + nl + prefixes + attesting_set + attested_set + k_rows + count + nl,
            head + v2 + nl + k_after + after + nl + k_before + before + nl + k_limit + limit + nl + prefixes + attesting_set + attested_set + k_rows + count + nl,
            row_lines,
        );
        lemma_right_cancel(
            head + v1 + nl + k_after + after + nl + k_before + before + nl + k_limit + limit + nl + prefixes + attesting_set + attested_set + k_rows + count,
            head + v2 + nl + k_after + after + nl + k_before + before + nl + k_limit + limit + nl + prefixes + attesting_set + attested_set + k_rows + count,
            nl,
        );
        lemma_right_cancel(
            head + v1 + nl + k_after + after + nl + k_before + before + nl + k_limit + limit + nl + prefixes + attesting_set + attested_set + k_rows,
            head + v2 + nl + k_after + after + nl + k_before + before + nl + k_limit + limit + nl + prefixes + attesting_set + attested_set + k_rows,
            count,
        );
        lemma_right_cancel(
            head + v1 + nl + k_after + after + nl + k_before + before + nl + k_limit + limit + nl + prefixes + attesting_set + attested_set,
            head + v2 + nl + k_after + after + nl + k_before + before + nl + k_limit + limit + nl + prefixes + attesting_set + attested_set,
            k_rows,
        );
        lemma_right_cancel(
            head + v1 + nl + k_after + after + nl + k_before + before + nl + k_limit + limit + nl + prefixes + attesting_set,
            head + v2 + nl + k_after + after + nl + k_before + before + nl + k_limit + limit + nl + prefixes + attesting_set,
            attested_set,
        );
        lemma_right_cancel(
            head + v1 + nl + k_after + after + nl + k_before + before + nl + k_limit + limit + nl + prefixes,
            head + v2 + nl + k_after + after + nl + k_before + before + nl + k_limit + limit + nl + prefixes,
            attesting_set,
        );
        lemma_right_cancel(
            head + v1 + nl + k_after + after + nl + k_before + before + nl + k_limit + limit + nl,
            head + v2 + nl + k_after + after + nl + k_before + before + nl + k_limit + limit + nl,
            prefixes,
        );
        lemma_right_cancel(
            head + v1 + nl + k_after + after + nl + k_before + before + nl + k_limit + limit,
            head + v2 + nl + k_after + after + nl + k_before + before + nl + k_limit + limit,
            nl,
        );
        lemma_right_cancel(
            head + v1 + nl + k_after + after + nl + k_before + before + nl + k_limit,
            head + v2 + nl + k_after + after + nl + k_before + before + nl + k_limit,
            limit,
        );
        lemma_right_cancel(
            head + v1 + nl + k_after + after + nl + k_before + before + nl,
            head + v2 + nl + k_after + after + nl + k_before + before + nl,
            k_limit,
        );
        lemma_right_cancel(
            head + v1 + nl + k_after + after + nl + k_before + before,
            head + v2 + nl + k_after + after + nl + k_before + before,
            nl,
        );
        lemma_right_cancel(
            head + v1 + nl + k_after + after + nl + k_before,
            head + v2 + nl + k_after + after + nl + k_before,
            before,
        );
        lemma_right_cancel(
            head + v1 + nl + k_after + after + nl,
            head + v2 + nl + k_after + after + nl,
            k_before,
        );
        lemma_right_cancel(
            head + v1 + nl + k_after + after,
            head + v2 + nl + k_after + after,
            nl,
        );
        lemma_right_cancel(
            head + v1 + nl + k_after,
            head + v2 + nl + k_after,
            after,
        );
        lemma_right_cancel(
            head + v1 + nl,
            head + v2 + nl,
            k_after,
        );
        lemma_right_cancel(
            head + v1,
            head + v2,
            nl,
        );
        lemma_left_cancel(head, v1, v2);
    }
}

/// The selection hash owed for a selection and the ids of the rows it returned.
pub open spec fn selection_hash_of(sel: Selection, row_ids: Seq<String>, h: Seq<char>) -> bool {
    exists|n: Selection|
        n.normal_form_of(sel) && h == sha256_hex(
            encode_utf8(#[trigger] selection_preimage(n, text_sort(views(row_ids)))),
        )
}

/// Append `tag + value + "\n"`.
fn push_line(s: &mut String, tag: &str, value: &str)
    ensures
        final(s)@ == old(s)@ + tag@ + value@ + "\n"@,
{
    s.append(tag);
    s.append(value);
    s.append("\n");
}

/// The preimage text of a predicate value.
fn value_of(o: &Option<String>) -> (t: String)
    ensures
        t@ == value_text(*o),
{
    match o {
        Some(s) => s.clone(),
        None => owned("-"),
    }
}

/// The preimage text of an instant.
fn instant_value_of(o: Option<Instant>) -> (t: String)
    ensures
        t@ == instant_value_text(o),
{
    match o {
        Some(t) => match render_rfc3339(t) {
            Some(s) => s,
            None => owned("-"),
        },
        None => owned("-"),
    }
}

/// Append one `tag=value` line per value.
fn push_lines(s: &mut String, tag: &str, xs: &[String])
    ensures
        final(s)@ == old(s)@ + tagged_lines(tag@, views(xs@)),
{
    let n = xs.len();
    let mut i: usize = 0;
    while i < n
        invariant
            n == xs@.len(),
            0 <= i <= n,
            s@ == old(s)@ + tagged_lines(tag@, views(xs@.take(i as int))),
        decreases n - i,
    {
        proof {
            assert(views(xs@.take(i + 1)).drop_last() =~= views(xs@.take(i as int)));
            assert(views(xs@.take(i + 1)).last() == xs@[i as int]@);
        }
        push_line(s, tag, xs[i].as_str());
        proof {
            assert(s@ =~= old(s)@ + tagged_lines(tag@, views(xs@.take(i + 1))));
        }
        i = i + 1;
    }
    assert(xs@.take(n as int) =~= xs@);
}

/// SHA-256 over a versioned preimage covering both the whole normalized
/// selection (every predicate, the key-id sets member by member) and the row
/// ids it returned, the ids sorted so the hash never depends on
/// page order.
pub fn selection_hash(selection: &Selection, row_ids: &[String]) -> (h: String)
    ensures
        selection_hash_of(*selection, row_ids@, h@),
{
    let n = selection.normalized();
    let ids = sorted_ids(row_ids);
    let mut pre = owned(SELECTION_HASH_VERSION);
    pre.append("\n");
    push_line(&mut pre, "attesting=", value_of(&n.attesting_key_id).as_str());
    push_line(&mut pre, "attested=", value_of(&n.attested_key_id).as_str());
    push_line(&mut pre, "type=", value_of(&n.attestation_type).as_str());
    push_line(&mut pre, "dimension_exact=", value_of(&n.dimension_exact).as_str());
    push_line(&mut pre, "subject=", value_of(&n.subject_key_id).as_str());
    push_line(&mut pre, "after=", instant_value_of(n.after).as_str());
    push_line(&mut pre, "before=", instant_value_of(n.before).as_str());
    let limit = n.effective_limit();
    push_line(&mut pre, "limit=", i64_text(limit).as_str());
    push_lines(&mut pre, "prefix=", n.dimension_prefixes.as_slice());
    push_lines(&mut pre, "attesting=", n.attesting_key_ids.as_slice());
    push_lines(&mut pre, "attested=", n.attested_key_ids.as_slice());
    proof {
        assert(views(ids@).len() == ids@.len());
    }
    push_line(&mut pre, "rows=", usize_text(ids.len()).as_str());
    push_lines(&mut pre, "row=", ids.as_slice());
    proof {
        assert(text_sort(views(row_ids@)).len() == ids@.len());
        assert(pre@ =~= selection_preimage(n, text_sort(views(row_ids@))));
    }
    sha256_hex_of(pre.as_str().as_bytes())
}


// ─── What a previewed page reports ──────────────────────────────────────────

/// One row the substrate returned for a preview, as the report reads it.
#[derive(Debug)]
pub struct PageRow {
    pub attestation_id: String,
    pub attesting_key_id: String,
    pub asserted_at: Instant,
}

/// The row's instant lies inside the half-open window `[after, before)`.
pub open spec fn in_window(t: Instant, after: Option<Instant>, before: Option<Instant>) -> bool {
    (match after {
        Some(a) => !earlier(t, a),
        None => true,
    }) && (match before {
        Some(b) => earlier(t, b),
        None => true,
    })
}

/// How many rows fall outside the window.
pub open spec fn count_outside(rows: Seq<PageRow>, after: Option<Instant>, before: Option<Instant>) -> nat
    decreases rows.len(),
{
    if rows.len() == 0 {
        0
    } else {
        count_outside(rows.drop_last(), after, before) + if in_window(
            rows.last().asserted_at,
            after,
            before,
        ) {
            0nat
        } else {
            1nat
        }
    }
}

/// How many in-window rows this attester authored.
pub open spec fn count_by(rows: Seq<PageRow>, after: Option<Instant>, before: Option<Instant>, y: Seq<char>) -> nat
    decreases rows.len(),
{
    if rows.len() == 0 {
        0
    } else {
        count_by(rows.drop_last(), after, before, y) + if in_window(
            rows.last().asserted_at,
            after,
            before,
        ) && rows.last().attesting_key_id@ == y {
            1nat
        } else {
            0nat
        }
    }
}

/// What a preview page reports about the rows the substrate returned.
#[derive(Debug)]
pub struct PageSummary {
    /// Indices of the rows inside the window, in page order.
    pub kept: Vec<usize>,
    /// Distinct attesters of the kept rows, ascending, each with its row count.
    pub per_attester: Vec<(String, usize)>,
    /// The page filled to the limit: the selection may be larger.
    pub truncated: bool,
    /// Where the window was enforced, as measured on this page.
    pub window_enforced: WindowEnforcement,
}

/// The attester table is exact for these rows.
pub open spec fn attester_table(
    table: Seq<(String, usize)>,
    rows: Seq<PageRow>,
    after: Option<Instant>,
    before: Option<Instant>,
) -> bool {
    &&& forall|i: int, j: int|
        0 <= i < j < table.len() ==> text_less(#[trigger] table[i].0@, #[trigger] table[j].0@)
    &&& forall|i: int| 0 <= i < table.len() ==> #[trigger] table[i].1 == count_by(rows, after, before, table[i].0@)
    &&& forall|y: Seq<char>|
        #[trigger] count_by(rows, after, before, y) > 0 ==> exists|i: int|
            0 <= i < table.len() && #[trigger] table[i].0@ == y
}

/// Summarise a preview page: what was kept, by whom, whether the page filled,
/// and where the window was enforced.
pub fn summarize_page(rows: &[PageRow], after: Option<Instant>, before: Option<Instant>, limit: i64) -> (s:
    PageSummary)
    ensures
        s.truncated == (rows@.len() >= limit),
        (after is None && before is None) ==> s.window_enforced == WindowEnforcement::NotRequested,
        !(after is None && before is None) ==> s.window_enforced == (if count_outside(
            rows@,
            after,
            before,
        ) == 0 {
            WindowEnforcement::Substrate
        } else {
            WindowEnforcement::Application
        }),
        forall|k: int| 0 <= k < s.kept@.len() ==> (#[trigger] s.kept@[k]) < rows@.len(),
        forall|k: int, l: int| 0 <= k < l < s.kept@.len() ==> #[trigger] s.kept@[k] < #[trigger] s.kept@[l],
        forall|i: int|
            0 <= i < rows@.len() ==> (in_window(#[trigger] rows@[i].asserted_at, after, before)
                <==> exists|k: int| 0 <= k < s.kept@.len() && s.kept@[k] == i),
        attester_table(s.per_attester@, rows@, after, before),
{
    let n = rows.len();
    let mut kept: Vec<usize> = Vec::new();
    let mut table: Vec<(String, usize)> = Vec::new();
    let mut outside: usize = 0;
    let mut i: usize = 0;
    while i < n
        invariant
            n == rows@.len(),
            0 <= i <= n,
            outside == count_outside(rows@.take(i as int), after, before),
            outside <= i,
            forall|k: int| 0 <= k < kept@.len() ==> (#[trigger] kept@[k]) < i,
            forall|k: int, l: int| 0 <= k < l < kept@.len() ==> #[trigger] kept@[k] < #[trigger] kept@[l],
            forall|q: int|
                0 <= q < i ==> (in_window(#[trigger] rows@[q].asserted_at, after, before)
                    <==> exists|k: int| 0 <= k < kept@.len() && kept@[k] == q),
            attester_table(table@, rows@.take(i as int), after, before),
            forall|t: int| 0 <= t < table@.len() ==> #[trigger] table@[t].1 <= i,
        decreases n - i,
    {
        let r = &rows[i];
        let inside = match after {
            Some(a) => !is_earlier(r.asserted_at, a),
            None => true,
        } && match before {
            Some(b) => is_earlier(r.asserted_at, b),
            None => true,
        };
        let ghost pre = rows@.take(i as int);
        let ghost post = rows@.take(i + 1);
        proof {
            assert(post.drop_last() =~= pre);
            assert(post.last() == rows@[i as int]);
        }
        if !inside {
            outside = outside + 1;
            proof {
                assert forall|q: int|
                    0 <= q < i + 1 implies (in_window(#[trigger] rows@[q].asserted_at, after, before)
                        <==> exists|k: int| 0 <= k < kept@.len() && kept@[k] == q) by {
                    if q == i {
                        if exists|k: int| 0 <= k < kept@.len() && kept@[k] == q {
                            let k = choose|k: int| 0 <= k < kept@.len() && kept@[k] == q;
                            assert(kept@[k] < i);
                        }
                    }
                }
                assert forall|y: Seq<char>| count_by(post, after, before, y) == count_by(pre, after, before, y) by {}
            }
        } else {
            let ghost kept_before = kept@;
            kept.push(i);
            proof {
                assert forall|q: int|
                    0 <= q < i + 1 implies (in_window(#[trigger] rows@[q].asserted_at, after, before)
                        <==> exists|k: int| 0 <= k < kept@.len() && kept@[k] == q) by {
                    if q < i {
                        if exists|k: int| 0 <= k < kept@.len() && kept@[k] == q {
                            let k = choose|k: int| 0 <= k < kept@.len() && kept@[k] == q;
                            assert(k < kept_before.len());
                            assert(kept_before[k] == q);
                        }
                        if in_window(rows@[q].asserted_at, after, before) {
                            let k = choose|k: int| 0 <= k < kept_before.len() && kept_before[k] == q;
                            assert(kept@[k] == q);
                        }
                    } else {
                        assert(kept@[kept@.len() - 1] == q);
                    }
                }
            }
            let key = r.attesting_key_id.as_str();
            let m = table.len();
            let mut p: usize = 0;
            while p < m && text_lt(table[p].0.as_str(), key)
                invariant
                    m == table@.len(),
                    0 <= p <= m,
                    forall|q: int| 0 <= q < p ==> text_less(#[trigger] table@[q].0@, key@),
                decreases m - p,
            {
                p = p + 1;
            }
            let ghost old_table = table@;
            proof {
                assert forall|y: Seq<char>| y != key@ implies count_by(post, after, before, y)
                    == count_by(pre, after, before, y) by {}
                assert(count_by(post, after, before, key@) == count_by(pre, after, before, key@) + 1);
            }
            if p < m && text_eq(table[p].0.as_str(), key) {
                let c = table[p].1;
                let name = table[p].0.clone();
                table.set(p, (name, c + 1));
                proof {
                    assert forall|t: int| 0 <= t < table@.len() implies #[trigger] table@[t].1
                        == count_by(post, after, before, table@[t].0@) by {
                        if t != p {
                            assert(table@[t] == old_table[t]);
                            if old_table[t].0@ == key@ {
                                assert(text_less(old_table[t].0@, old_table[p as int].0@) || text_less(old_table[p as int].0@, old_table[t].0@));
                                crate::admin::lemma_text_less_irreflexive(key@);
                            }
                        }
                    }
                    assert forall|y: Seq<char>|
                        #[trigger] count_by(post, after, before, y) > 0 implies exists|t: int|
                            0 <= t < table@.len() && #[trigger] table@[t].0@ == y by {
                        if y == key@ {
                            assert(table@[p as int].0@ == y);
                        } else {
                            let t = choose|t: int| 0 <= t < old_table.len() && #[trigger] old_table[t].0@ == y;
                            assert(table@[t].0@ == y);
                        }
                    }
                }
            } else {
                proof {
                    if p < m {
                        crate::admin::lemma_text_less_total(old_table[p as int].0@, key@);
                        assert forall|q: int| p <= q < m implies text_less(key@, #[trigger] old_table[q].0@) by {
                            if q > p {
                                crate::admin::lemma_text_less_transitive(key@, old_table[p as int].0@, old_table[q].0@);
                            }
                        }
                    }
                    assert forall|t: int| 0 <= t < m implies #[trigger] old_table[t].0@ != key@ by {
                        if t < p {
                            crate::admin::lemma_text_less_irreflexive(key@);
                        } else {
                            crate::admin::lemma_text_less_irreflexive(key@);
                        }
                    }
                    assert(count_by(pre, after, before, key@) == 0);
                }
                table.insert(p, (owned(key), 1));
                proof {
                    assert forall|a: int, b: int| 0 <= a < b < table@.len() implies text_less(
                        #[trigger] table@[a].0@,
                        #[trigger] table@[b].0@,
                    ) by {
                        if a < p && b > p {
                            assert(table@[a] == old_table[a]);
                            assert(table@[b] == old_table[b - 1]);
                        } else if a == p {
                            assert(table@[b] == old_table[b - 1]);
                        } else if b == p {
                            assert(table@[a] == old_table[a]);
                        } else if a > p {
                            assert(table@[a] == old_table[a - 1]);
                            assert(table@[b] == old_table[b - 1]);
                        } else {
                            assert(table@[a] == old_table[a]);
                            assert(table@[b] == old_table[b]);
                        }
                    }
                    assert forall|t: int| 0 <= t < table@.len() implies #[trigger] table@[t].1
                        == count_by(post, after, before, table@[t].0@) by {
                        if t < p {
                            assert(table@[t] == old_table[t]);
                        } else if t > p {
                            assert(table@[t] == old_table[t - 1]);
                        }
                    }
                    assert forall|y: Seq<char>|
                        #[trigger] count_by(post, after, before, y) > 0 implies exists|t: int|
                            0 <= t < table@.len() && #[trigger] table@[t].0@ == y by {
                        if y == key@ {
                            assert(table@[p as int].0@ == y);
                        } else {
                            let t = choose|t: int| 0 <= t < old_table.len() && #[trigger] old_table[t].0@ == y;
                            if t < p {
                                assert(table@[t].0@ == y);
                            } else {
                                assert(table@[t + 1].0@ == y);
                            }
                        }
                    }
                    assert forall|t: int| 0 <= t < table@.len() implies #[trigger] table@[t].1 <= i + 1 by {
                        if t < p {
                            assert(table@[t] == old_table[t]);
                        } else if t > p {
                            assert(table@[t] == old_table[t - 1]);
                        }
                    }
                }
            }
        }
        i = i + 1;
    }
    proof {
        assert(rows@.take(n as int) =~= rows@);
        assert forall|q: int|
            0 <= q < rows@.len() implies (in_window(#[trigger] rows@[q].asserted_at, after, before)
                <==> exists|k: int| 0 <= k < kept@.len() && kept@[k] == q) by {
            assert(q < i);
        }
    }
    let asked = after.is_some() || before.is_some();
    let window_enforced = if !asked {
        WindowEnforcement::NotRequested
    } else if outside == 0 {
        WindowEnforcement::Substrate
    } else {
        WindowEnforcement::Application
    };
    let truncated = (n as i128) >= (limit as i128);
    let ghost kept_ids = kept@;
    let summary = PageSummary { kept, per_attester: table, truncated, window_enforced };
    proof {
        assert(summary.kept@ == kept_ids);
        assert forall|q: int|
            0 <= q < rows@.len() implies (in_window(#[trigger] rows@[q].asserted_at, after, before)
                <==> exists|k: int| 0 <= k < summary.kept@.len() && summary.kept@[k] == q) by {
            if in_window(rows@[q].asserted_at, after, before) {
                let k = choose|k: int| 0 <= k < kept_ids.len() && kept_ids[k] == q;
                assert(summary.kept@[k] == q);
            }
            if exists|k: int| 0 <= k < summary.kept@.len() && summary.kept@[k] == q {
                let k = choose|k: int| 0 <= k < summary.kept@.len() && summary.kept@[k] == q;
                assert(kept_ids[k] == q);
            }
        }
    }
    summary
}

} // verus!
