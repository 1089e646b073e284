//! The primitives the accord logic stands on: instants, digests, text.
//!
//! Each outside call sits in one small wrapper whose contract says what the
//! outside documentation promises; the spec functions beside them are the
//! vocabulary every other module's contracts are written in.

use vstd::prelude::*;
use vstd::utf8::*;
use sha2::Digest;
use base64::Engine as _;

verus! {

// ─── Instants ───────────────────────────────────────────────────────────────

/// A UTC instant: whole seconds since the Unix epoch plus the sub-second part in
/// nanoseconds (a leap second carries `nanos >= 1_000_000_000`, as in chrono).
#[derive(Clone, Copy, Debug, PartialEq, Eq, Structural)]
pub struct Instant {
    pub secs: i64,
    pub nanos: u32,
}

/// `a` is strictly earlier than `b`.
pub open spec fn earlier(a: Instant, b: Instant) -> bool {
    a.secs < b.secs || (a.secs == b.secs && a.nanos < b.nanos)
}

/// Is `a` strictly earlier than `b`?
pub fn is_earlier(a: Instant, b: Instant) -> (r: bool)
    ensures
        r == earlier(a, b),
{
    a.secs < b.secs || (a.secs == b.secs && a.nanos < b.nanos)
}

/// What chrono's RFC-3339 parser makes of a text, as `(timestamp, subsec_nanos)`
/// in UTC; `None` where it refuses the text.
pub uninterp spec fn rfc3339_parse(text: Seq<char>) -> Option<(i64, u32)>;

/// What chrono renders an instant as with `to_rfc3339_opts(Millis, true)`
/// (`YYYY-MM-DDTHH:MM:SS.sssZ`); `None` where chrono cannot represent it.
pub uninterp spec fn rfc3339_millis_text(secs: i64, nanos: u32) -> Option<Seq<char>>;

/// What chrono renders an instant as with `to_rfc3339()`; `None` where chrono
/// cannot represent it.
pub uninterp spec fn rfc3339_text(secs: i64, nanos: u32) -> Option<Seq<char>>;

/// The parsed instant of a text, in the library's own type.
pub open spec fn parsed_instant(text: Seq<char>) -> Option<Instant> {
    match rfc3339_parse(text) {
        Some(p) => Some(Instant { secs: p.0, nanos: p.1 }),
        None => None,
    }
}

/// Calls `chrono::DateTime::parse_from_rfc3339` and reads the instant in UTC.
/// The contract claims only that the result is what chrono's parser gives for
/// this text (named, not restated).
#[verifier::external_body]
pub fn parse_rfc3339(text: &str) -> (r: Option<Instant>)
    ensures
        r is Some <==> rfc3339_parse(text@) is Some,
        r == parsed_instant(text@),
{
    match chrono::DateTime::parse_from_rfc3339(text) {
        Ok(t) => {
            let u = t.with_timezone(&chrono::Utc);
            Some(Instant { secs: u.timestamp(), nanos: u.timestamp_subsec_nanos() })
        },
        Err(_) => None,
    }
}

/// The system clock's reading, as std gives it.
#[verifier::external_type_specification]
#[verifier::external_body]
pub struct ExSystemTime(std::time::SystemTime);

/// Calls `std::time::SystemTime::now`. Nothing is claimed of the clock.
#[verifier::external_body]
pub(crate) fn system_now() -> std::time::SystemTime {
    std::time::SystemTime::now()
}

/// Calls `SystemTime::duration_since(UNIX_EPOCH)`: the whole seconds and the
/// sub-second nanoseconds since the epoch (the latter below one second, as
/// `Duration::subsec_nanos` documents), or `None` when the reading is before
/// the epoch. Nothing else is claimed of the clock.
#[verifier::external_body]
pub(crate) fn since_unix_epoch(t: &std::time::SystemTime) -> (r: Option<(u64, u32)>)
    ensures
        r matches Some(p) ==> p.1 < 1_000_000_000,
{
    match t.duration_since(std::time::UNIX_EPOCH) {
        Ok(d) => Some((d.as_secs(), d.subsec_nanos())),
        Err(_) => None,
    }
}

/// The current UTC instant, or `None` when the clock reads before the Unix
/// epoch or beyond the `i64` second range.
pub fn now_utc() -> (r: Option<Instant>)
    ensures
        r matches Some(t) ==> t.secs >= 0 && t.nanos < 1_000_000_000,
{
    let clock = system_now();
    match since_unix_epoch(&clock) {
        Some((secs, nanos)) => if secs <= i64::MAX as u64 {
            Some(Instant { secs: secs as i64, nanos })
        } else {
            None
        },
        None => None,
    }
}

/// The current UTC instant, with a clock that reads before the epoch, or
/// beyond the `i64` second range, taken as the epoch itself.
pub fn clock_or_epoch() -> (t: Instant)
    ensures
        t.secs >= 0 && t.nanos < 1_000_000_000,
{
    match now_utc() {
        Some(t) => t,
        None => Instant { secs: 0, nanos: 0 },
    }
}

/// An instant from the epoch through the end of year 9999, with its
/// sub-second part below one second.
pub open spec fn in_four_digit_years(t: Instant) -> bool {
    0 <= t.secs <= 253402300799 && t.nanos < 1_000_000_000
}

/// The RFC-3339 parser reads `s` back as `t`'s second, truncated to the
/// millisecond.
pub open spec fn reads_back_to_the_millisecond(s: Seq<char>, t: Instant) -> bool {
    rfc3339_parse(s) == Some((t.secs, (t.nanos / 1_000_000 * 1_000_000) as u32))
}

/// Calls chrono's `to_rfc3339_opts(SecondsFormat::Millis, true)` on the instant
/// (built with `DateTime::from_timestamp`). The result is chrono's rendering,
/// named, or `None` where chrono cannot represent the instant. For an instant
/// from 1970 through year 9999 the rendering exists and chrono's RFC-3339
/// parser reads it back to the same second, truncated to the millisecond.
#[verifier::external_body]
pub fn render_rfc3339_millis(t: Instant) -> (r: Option<String>)
    ensures
        r is Some <==> rfc3339_millis_text(t.secs, t.nanos) is Some,
        r matches Some(s) ==> Some(s@) == rfc3339_millis_text(t.secs, t.nanos),
        in_four_digit_years(t) ==> r is Some,
        r matches Some(s) ==> (in_four_digit_years(t) ==> reads_back_to_the_millisecond(s@, t)),
{
    match chrono::DateTime::from_timestamp(t.secs, t.nanos) {
        Some(d) => Some(d.to_rfc3339_opts(chrono::SecondsFormat::Millis, true)),
        None => None,
    }
}

/// Calls chrono's `to_rfc3339()` on the instant (built with
/// `DateTime::from_timestamp`). The result is chrono's rendering, named, or
/// `None` where chrono cannot represent the instant.
#[verifier::external_body]
pub fn render_rfc3339(t: Instant) -> (r: Option<String>)
    ensures
        r is Some <==> rfc3339_text(t.secs, t.nanos) is Some,
        r matches Some(s) ==> Some(s@) == rfc3339_text(t.secs, t.nanos),
{
    match chrono::DateTime::<chrono::Utc>::from_timestamp(t.secs, t.nanos) {
        Some(d) => Some(d.to_rfc3339()),
        None => None,
    }
}

// ─── Digests and encodings ──────────────────────────────────────────────────

/// The SHA-256 digest of a byte string, as `sha2::Sha256::digest` computes it.
pub uninterp spec fn sha256_of(data: Seq<u8>) -> Seq<u8>;

/// Calls `sha2::Sha256::digest`. Claims that the result is the named digest of
/// the input, and that it is 32 bytes long (SHA-256's output size).
#[verifier::external_body]
pub fn sha256(data: &[u8]) -> (d: Vec<u8>)
    ensures
        d@ == sha256_of(data@),
        d@.len() == 32,
{
    sha2::Sha256::digest(data).to_vec()
}

/// One nibble as a lowercase hex digit.
pub open spec fn hex_digit(n: int) -> char {
    if n < 10 { ((n + 48) as u32) as char } else { ((n + 87) as u32) as char }
}

/// Lowercase hex of a byte string: two digits per byte, high nibble first.
pub open spec fn hex_lower(bytes: Seq<u8>) -> Seq<char>
    decreases bytes.len(),
{
    if bytes.len() == 0 {
        Seq::empty()
    } else {
        seq![hex_digit(bytes[0] as int / 16), hex_digit(bytes[0] as int % 16)] + hex_lower(
            bytes.drop_first(),
        )
    }
}

/// Calls `hex::encode`, which renders each byte as two lowercase hex digits.
#[verifier::external_body]
pub fn hex_encode(bytes: &[u8]) -> (s: String)
    ensures
        s@ == hex_lower(bytes@),
{
    hex::encode(bytes)
}

/// Lowercase hex SHA-256 of a byte string.
pub open spec fn sha256_hex(data: Seq<u8>) -> Seq<char> {
    hex_lower(sha256_of(data))
}

/// Lowercase-hex SHA-256 of `bytes`.
pub fn sha256_hex_of(bytes: &[u8]) -> (s: String)
    ensures
        s@ == sha256_hex(bytes@),
{
    let d = sha256(bytes);
    hex_encode(d.as_slice())
}

/// The base64url (no padding) text of a byte string, as the `base64` crate's
/// `URL_SAFE_NO_PAD` engine encodes it.
pub uninterp spec fn base64url_nopad(bytes: Seq<u8>) -> Seq<char>;

/// Calls `base64::engine::general_purpose::URL_SAFE_NO_PAD.encode`: four
/// characters per three bytes, the last group unpadded.
#[verifier::external_body]
pub fn base64url_nopad_encode(bytes: &[u8]) -> (s: String)
    ensures
        s@ == base64url_nopad(bytes@),
        s@.len() == (4 * bytes@.len() + 2) / 3,
{
    base64::engine::general_purpose::URL_SAFE_NO_PAD.encode(bytes)
}

/// What the `base64` crate's `STANDARD` engine decodes a text to; `None` where
/// it refuses the text.
pub uninterp spec fn base64_standard_decoded(text: Seq<char>) -> Option<Seq<u8>>;

/// Calls `base64::engine::general_purpose::STANDARD.decode`.
#[verifier::external_body]
pub fn base64_standard_decode(text: &str) -> (r: Option<Vec<u8>>)
    ensures
        r is Some <==> base64_standard_decoded(text@) is Some,
        r matches Some(v) ==> Some(v@) == base64_standard_decoded(text@),
{
    match base64::engine::general_purpose::STANDARD.decode(text) {
        Ok(v) => Some(v),
        Err(_) => None,
    }
}

/// Calls `getrandom::fill` for 32 bytes. Claims only that a success carries
/// exactly 32 bytes; `None` is a CSPRNG fault.
#[verifier::external_body]
pub fn random_32() -> (r: Option<Vec<u8>>)
    ensures
        r matches Some(v) ==> v@.len() == 32,
{
    let mut b = [0u8; 32];
    match getrandom::fill(&mut b) {
        Ok(()) => Some(b.to_vec()),
        Err(_) => None,
    }
}

// ─── Text ───────────────────────────────────────────────────────────────────

/// Unicode `White_Space` — what `char::is_whitespace` and `str::trim` test.
pub open spec fn is_white_space(c: char) -> bool {
    let u = c as u32;
    (0x09 <= u <= 0x0d) || u == 0x20 || u == 0x85 || u == 0xa0 || u == 0x1680 || (0x2000 <= u
        <= 0x200a) || u == 0x2028 || u == 0x2029 || u == 0x202f || u == 0x205f || u == 0x3000
}

/// Is `c` Unicode `White_Space`? (`char::is_whitespace`.)
pub fn is_whitespace_char(c: char) -> (r: bool)
    ensures
        r == is_white_space(c),
{
    let u = c as u32;
    (0x09 <= u && u <= 0x0d) || u == 0x20 || u == 0x85 || u == 0xa0 || u == 0x1680 || (0x2000 <= u
        && u <= 0x200a) || u == 0x2028 || u == 0x2029 || u == 0x202f || u == 0x205f || u == 0x3000
}

/// The characters of a text, in order.
pub fn chars_of(s: &str) -> (v: Vec<char>)
    ensures
        v@ == s@,
{
    let n = s.unicode_len();
    let mut v: Vec<char> = Vec::new();
    let mut i: usize = 0;
    while i < n
        invariant
            n == s@.len(),
            0 <= i <= n,
            v@ == s@.take(i as int),
        decreases n - i,
    {
        v.push(s.get_char(i));
        proof {
            assert(s@.take(i + 1) =~= s@.take(i as int).push(s@[i as int]));
        }
        i = i + 1;
    }
    proof {
        assert(s@.take(n as int) =~= s@);
    }
    v
}

/// The text with leading white space removed.
pub open spec fn trim_start_spec(s: Seq<char>) -> Seq<char>
    decreases s.len(),
{
    if s.len() > 0 && is_white_space(s[0]) {
        trim_start_spec(s.drop_first())
    } else {
        s
    }
}

/// The text with trailing white space removed.
pub open spec fn trim_end_spec(s: Seq<char>) -> Seq<char>
    decreases s.len(),
{
    if s.len() > 0 && is_white_space(s.last()) {
        trim_end_spec(s.drop_last())
    } else {
        s
    }
}

/// The text with leading and trailing white space removed.
pub open spec fn trim_spec(s: Seq<char>) -> Seq<char> {
    trim_end_spec(trim_start_spec(s))
}

/// Calls `str::trim`, which removes leading and trailing Unicode white space.
#[verifier::external_body]
pub fn trim(s: &str) -> (t: &str)
    ensures
        t@ == trim_spec(s@),
{
    s.trim()
}

/// Byte-wise (equivalently, code-point-wise) lexicographic order on texts — the
/// order `str` compares by.
pub open spec fn text_less(a: Seq<char>, b: Seq<char>) -> bool
    decreases a.len(),
{
    if a.len() == 0 {
        b.len() > 0
    } else if b.len() == 0 {
        false
    } else if (a[0] as u32) < (b[0] as u32) {
        true
    } else if (a[0] as u32) > (b[0] as u32) {
        false
    } else {
        text_less(a.drop_first(), b.drop_first())
    }
}

/// Calls `<str as PartialOrd>::lt`.
#[verifier::external_body]
pub fn text_lt(a: &str, b: &str) -> (r: bool)
    ensures
        r == text_less(a@, b@),
{
    a < b
}

/// Calls `<str as PartialEq>::eq`.
#[verifier::external_body]
pub fn text_eq(a: &str, b: &str) -> (r: bool)
    ensures
        r == (a@ == b@),
{
    a == b
}

/// Calls `std::str::from_utf8` and owns the result: `Some` exactly when the
/// bytes are valid UTF-8, holding their decoding.
#[verifier::external_body]
pub fn utf8_text(bytes: &[u8]) -> (r: Option<String>)
    ensures
        r is Some <==> valid_utf8(bytes@),
        r matches Some(s) ==> s@ == decode_utf8(bytes@),
{
    match std::str::from_utf8(bytes) {
        Ok(s) => Some(s.to_owned()),
        Err(_) => None,
    }
}

/// Calls `String::push`.
#[verifier::external_body]
pub fn push_char(s: &mut String, c: char)
    ensures
        final(s)@ == old(s)@.push(c),
{
    s.push(c)
}

/// The decimal digits of a number, most significant first.
pub open spec fn decimal(n: nat) -> Seq<char>
    decreases n,
{
    if n < 10 {
        seq![((n + 48) as u32) as char]
    } else {
        decimal(n / 10).push((((n % 10) + 48) as u32) as char)
    }
}

/// Calls `usize::to_string`, which renders the number in decimal.
#[verifier::external_body]
pub fn usize_text(n: usize) -> (s: String)
    ensures
        s@ == decimal(n as nat),
{
    n.to_string()
}

/// Calls `i64::to_string` on a non-negative number, which renders it in decimal.
#[verifier::external_body]
pub fn i64_text(n: i64) -> (s: String)
    requires
        n >= 0,
    ensures
        s@ == decimal(n as nat),
{
    n.to_string()
}

/// Calls `u64::to_string`, which renders the number in decimal.
#[verifier::external_body]
pub fn u64_text(n: u64) -> (s: String)
    ensures
        s@ == decimal(n as nat),
{
    n.to_string()
}

/// A JSON string literal's escape of one character, as `serde_json` writes it:
/// `\"`, `\\`, the five short control escapes, `\u00xx` (lowercase) for the
/// other control characters, and the character itself otherwise.
pub open spec fn json_escape_char(c: char) -> Seq<char> {
    let u = c as u32;
    if c == '"' {
        seq!['\\', '"']
    } else if c == '\\' {
        seq!['\\', '\\']
    } else if u == 0x08 {
        seq!['\\', 'b']
    } else if u == 0x09 {
        seq!['\\', 't']
    } else if u == 0x0a {
        seq!['\\', 'n']
    } else if u == 0x0c {
        seq!['\\', 'f']
    } else if u == 0x0d {
        seq!['\\', 'r']
    } else if u < 0x20 {
        seq!['\\', 'u', '0', '0', hex_digit(u as int / 16), hex_digit(u as int % 16)]
    } else {
        seq![c]
    }
}

/// The escaped body of a JSON string literal.
pub open spec fn json_escaped(s: Seq<char>) -> Seq<char>
    decreases s.len(),
{
    if s.len() == 0 {
        Seq::empty()
    } else {
        json_escape_char(s[0]) + json_escaped(s.drop_first())
    }
}

/// `x + t == y + t` forces `x == y`.
pub(crate) proof fn lemma_right_cancel(x: Seq<char>, y: Seq<char>, t: Seq<char>)
    requires
        x + t == y + t,
    ensures
        x == y,
{
    assert((x + t).len() == x.len() + t.len() && (y + t).len() == y.len() + t.len());
    assert(x =~= (x + t).subrange(0, x.len() as int));
    assert(y =~= (y + t).subrange(0, y.len() as int));
}

/// `a + v == a + w` forces `v == w`.
pub(crate) proof fn lemma_left_cancel(a: Seq<char>, v: Seq<char>, w: Seq<char>)
    requires
        a + v == a + w,
    ensures
        v == w,
{
    assert((a + v).len() == a.len() + v.len() && (a + w).len() == a.len() + w.len());
    assert(v =~= (a + v).subrange(a.len() as int, (a + v).len() as int));
    assert(w =~= (a + w).subrange(a.len() as int, (a + w).len() as int));
}

/// Two hex digits are the same digit only for the same nibble.
proof fn lemma_hex_digit_injective(m: int, n: int)
    requires
        0 <= m < 16,
        0 <= n < 16,
        hex_digit(m) == hex_digit(n),
    ensures
        m == n,
{
    let cm: u32 = (if m < 10 { m + 48 } else { m + 87 }) as u32;
    let cn: u32 = (if n < 10 { n + 48 } else { n + 87 }) as u32;
    assert(hex_digit(m) == cm as char);
    assert(hex_digit(n) == cn as char);
    assert((cm as char) as u32 == cm) by {
        assert(cm < 0xD800);
    }
    assert((cn as char) as u32 == cn) by {
        assert(cn < 0xD800);
    }
}

/// An escape never opens with a double quote; an escape that opens with a
/// backslash is at least two characters; any other stands for itself.
proof fn lemma_escape_head(c: char)
    ensures
        json_escape_char(c).len() >= 1,
        json_escape_char(c)[0] != '"',
        json_escape_char(c)[0] == '\\' ==> json_escape_char(c).len() >= 2,
        json_escape_char(c)[0] != '\\' ==> json_escape_char(c) == seq![c] && c != '"' && c
            != '\\' && (c as u32) >= 0x20,
{
}

/// No escape is a prefix of another: an escaped text read from its start
/// gives back its first character and the rest.
proof fn lemma_escape_codes_prefix_free(a: char, b: char, s: Seq<char>, t: Seq<char>)
    requires
        json_escape_char(a) + s == json_escape_char(b) + t,
    ensures
        a == b,
        s == t,
{
    let ea = json_escape_char(a);
    let eb = json_escape_char(b);
    let x = ea + s;
    let y = eb + t;
    lemma_escape_head(a);
    lemma_escape_head(b);
    assert(x[0] == ea[0] && y[0] == eb[0]);
    if ea[0] != '\\' {
        assert(eb[0] == a);
        assert(b == a);
    } else {
        assert(x[1] == ea[1] && y[1] == eb[1]);
        let ua = a as u32;
        let ub = b as u32;
        if ea[1] == 'u' {
            assert(ea.len() == 6 && eb.len() == 6);
            assert(x[4] == ea[4] && y[4] == eb[4] && x[5] == ea[5] && y[5] == eb[5]);
            lemma_hex_digit_injective(ua as int / 16, ub as int / 16);
            lemma_hex_digit_injective(ua as int % 16, ub as int % 16);
            assert(ua == ub);
        } else {
            assert(ua == ub);
        }
        vstd::utf8::char_u32_cast(a, ua);
        vstd::utf8::char_u32_cast(b, ub);
    }
    assert(ea == eb);
    assert(s =~= x.subrange(ea.len() as int, x.len() as int));
    assert(t =~= y.subrange(eb.len() as int, y.len() as int));
}

/// JSON escaping loses nothing: two texts with the same escape are the same
/// text.
pub proof fn json_escaping_is_injective(a: Seq<char>, b: Seq<char>)
    requires
        json_escaped(a) == json_escaped(b),
    ensures
        a == b,
    decreases a.len(),
{
    if a.len() == 0 {
        if b.len() > 0 {
            lemma_escape_head(b[0]);
            assert(json_escaped(b).len() >= 1);
        }
        assert(a =~= b);
    } else {
        lemma_escape_head(a[0]);
        if b.len() == 0 {
            assert(json_escaped(a).len() >= 1);
        } else {
            lemma_escape_codes_prefix_free(
                a[0],
                b[0],
                json_escaped(a.drop_first()),
                json_escaped(b.drop_first()),
            );
            json_escaping_is_injective(a.drop_first(), b.drop_first());
            assert(a =~= seq![a[0]] + a.drop_first());
            assert(b =~= seq![b[0]] + b.drop_first());
        }
    }
}

/// A JSON string literal: the escaped text between double quotes.
pub open spec fn json_quoted(s: Seq<char>) -> Seq<char> {
    seq!['"'] + json_escaped(s) + seq!['"']
}

/// Calls `serde_json::to_string` on a string, which writes it as a JSON string
/// literal (serialising a `str` into memory does not fail).
#[verifier::external_body]
pub fn json_string(s: &str) -> (out: String)
    ensures
        out@ == json_quoted(s@),
{
    serde_json::to_string(s).unwrap_or_default()
}

/// What `<str as Debug>::fmt` writes for a text (`{:?}`): the text between
/// double quotes, with std's escapes (`\0`, `\t`, `\r`, `\n`, `\\`, `\"`,
/// and `\u{..}` for characters std's Unicode tables call unprintable or
/// grapheme-extending).
pub uninterp spec fn debug_quoted(s: Seq<char>) -> Seq<char>;

/// Formats a text with `{:?}`. Claims only that the result is the named
/// Debug rendering of the text; the escaping rests on std's Unicode tables
/// and is not written out here.
#[verifier::external_body]
pub(crate) fn debug_quote(s: &str) -> (out: String)
    ensures
        out@ == debug_quoted(s@),
{
    format!("{:?}", s)
}

/// The text of a string view, owned.
pub fn owned(s: &str) -> (out: String)
    ensures
        out@ == s@,
{
    s.to_owned()
}

/// `a ++ b`.
pub fn concat2(a: &str, b: &str) -> (out: String)
    ensures
        out@ == a@ + b@,
{
    let mut s = a.to_owned();
    s.append(b);
    s
}

/// `a ++ b ++ c`.
pub fn concat3(a: &str, b: &str, c: &str) -> (out: String)
    ensures
        out@ == a@ + b@ + c@,
{
    let mut s = a.to_owned();
    s.append(b);
    s.append(c);
    s
}

/// A copy of a list of texts.
pub fn copy_texts(v: &Vec<String>) -> (out: Vec<String>)
    ensures
        out@ == v@,
{
    let n = v.len();
    let mut out: Vec<String> = Vec::new();
    let mut i: usize = 0;
    while i < n
        invariant
            n == v@.len(),
            0 <= i <= n,
            out@ == v@.take(i as int),
        decreases n - i,
    {
        out.push(v[i].clone());
        proof {
            assert(v@.take(i + 1) =~= v@.take(i as int).push(v@[i as int]));
        }
        i = i + 1;
    }
    proof {
        assert(v@.take(n as int) =~= v@);
    }
    out
}

/// The hyphenated text of the version-4 UUID `uuid` builds from 16 random
/// bytes (`Builder::from_random_bytes`).
pub uninterp spec fn uuid_v4_of(bytes: Seq<u8>) -> Seq<char>;

/// Calls `uuid::Builder::from_random_bytes` on 16 bytes drawn elsewhere and
/// renders the UUID hyphenated: the named text, 36 characters long.
#[verifier::external_body]
pub(crate) fn uuid_from_random(bytes: &[u8]) -> (s: String)
    requires
        bytes@.len() == 16,
    ensures
        s@ == uuid_v4_of(bytes@),
        s@.len() == 36,
{
    let mut b = [0u8; 16];
    b.copy_from_slice(bytes);
    uuid::Builder::from_random_bytes(b).into_uuid().hyphenated().to_string()
}

/// What `str::to_lowercase` makes of a text (the Unicode lowercase mapping).
pub uninterp spec fn lowercase_text(s: Seq<char>) -> Seq<char>;

/// Calls `str::to_lowercase`.
#[verifier::external_body]
pub fn to_lowercase(s: &str) -> (r: String)
    ensures
        r@ == lowercase_text(s@),
{
    s.to_lowercase()
}

} // verus!
