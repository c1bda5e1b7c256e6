//! Byte-level encodings: JSON string literals, SHA-256 identities, hex and
//! decimal renderings.

use vstd::prelude::*;
use vstd::utf8::encode_utf8;

use sha2::{Digest, Sha256};

verus! {

/// The JSON escape of one character: quote and backslash are escaped with a
/// backslash, the named control characters by their short escapes, other
/// control characters below U+0020 as `\u00XX`; everything else stands as is.
pub open spec fn json_escape_char(c: char) -> Seq<char> {
    if c == '"' {
        seq!['\\', '"']
    } else if c == '\\' {
        seq!['\\', '\\']
    } else if c == '\x08' {
        seq!['\\', 'b']
    } else if c == '\t' {
        seq!['\\', 't']
    } else if c == '\n' {
        seq!['\\', 'n']
    } else if c == '\x0c' {
        seq!['\\', 'f']
    } else if c == '\r' {
        seq!['\\', 'r']
    } else if (c as u32) < 0x20 {
        seq!['\\', 'u', '0', '0', hex_digit_of((c as u32 / 16) as u8), hex_digit_of((c as u32 % 16) as u8)]
    } else {
        seq![c]
    }
}

/// The escaped contents of a JSON string literal.
pub open spec fn json_escaped(s: Seq<char>) -> Seq<char>
    decreases s.len(),
{
    if s.len() == 0 {
        Seq::empty()
    } else {
        json_escaped(s.drop_last()) + json_escape_char(s.last())
    }
}

/// A JSON string literal: the escaped text between double quotes.
pub open spec fn json_quoted(s: Seq<char>) -> Seq<char> {
    seq!['"'] + json_escaped(s) + seq!['"']
}

/// Renders `s` as a JSON string literal through `serde_json::to_string`.
///
/// Trusted: `serde_json::to_string` on a `str` writes a double quote, each
/// character escaped as its escape table prescribes (see `json_escape_char`),
/// and a closing double quote. It serializes into a `Vec<u8>`, whose writes
/// do not fail, so the result is always present.
#[verifier::external_body]
pub(crate) fn json_string(s: &str) -> (r: Option<String>)
    ensures
        r is Some,
        r matches Some(t) ==> t@ == json_quoted(s@),
{
    serde_json::to_string(s).ok()
}

/// The SHA-256 digest of a byte sequence.
pub uninterp spec fn sha256_of(data: Seq<u8>) -> Seq<u8>;

/// Hashes bytes through `sha2::Sha256::digest`.
///
/// Trusted: the result is the 32-byte SHA-256 digest of exactly `data`.
#[verifier::external_body]
pub(crate) fn sha256_digest(data: &[u8]) -> (r: Vec<u8>)
    ensures
        r@ == sha256_of(data@),
        r@.len() == 32,
{
    Sha256::digest(data).to_vec()
}

/// The lowercase hexadecimal digit of a value below sixteen.
pub open spec fn hex_digit_of(n: u8) -> char {
    if n < 10 {
        (('0' as u8) + n) as char
    } else {
        (('a' as u8) + n - 10) as char
    }
}

/// Two lowercase hexadecimal digits per byte, most significant first.
pub open spec fn hex_lower(bytes: Seq<u8>) -> Seq<char>
    decreases bytes.len(),
{
    if bytes.len() == 0 {
        Seq::empty()
    } else {
        hex_lower(bytes.drop_last()) + seq![
            hex_digit_of(bytes.last() / 16),
            hex_digit_of(bytes.last() % 16),
        ]
    }
}

fn hex_digit(n: u8) -> (c: char)
    requires
        n < 16,
    ensures
        c == hex_digit_of(n),
{
    if n < 10 {
        (48u8 + n) as char
    } else {
        (87u8 + n) as char
    }
}

/// Lowercase hexadecimal rendering of bytes.
pub fn hex_encode(bytes: &[u8]) -> (r: String)
    ensures
        r@ == hex_lower(bytes@),
{
    let mut out = String::new();
    let mut i: usize = 0;
    while i < bytes.len()
        invariant
            i <= bytes@.len(),
            out@ == hex_lower(bytes@.take(i as int)),
        decreases bytes.len() - i,
    {
        assert(bytes@.take(i + 1).drop_last() =~= bytes@.take(i as int));
        let b = bytes[i];
        crate::text::push_char(&mut out, hex_digit(b / 16));
        crate::text::push_char(&mut out, hex_digit(b % 16));
        i = i + 1;
    }
    assert(bytes@.take(bytes@.len() as int) =~= bytes@);
    out
}

/// The uppercase hexadecimal digit of a value below sixteen.
pub open spec fn upper_hex_digit_of(n: u8) -> char {
    if n < 10 {
        (('0' as u8) + n) as char
    } else {
        (('A' as u8) + n - 10) as char
    }
}

/// Two uppercase hexadecimal digits per byte, most significant first.
pub open spec fn hex_upper(bytes: Seq<u8>) -> Seq<char>
    decreases bytes.len(),
{
    if bytes.len() == 0 {
        Seq::empty()
    } else {
        hex_upper(bytes.drop_last()) + seq![
            upper_hex_digit_of(bytes.last() / 16),
            upper_hex_digit_of(bytes.last() % 16),
        ]
    }
}

fn upper_hex_digit(n: u8) -> (c: char)
    requires
        n < 16,
    ensures
        c == upper_hex_digit_of(n),
{
    if n < 10 {
        (48u8 + n) as char
    } else {
        (55u8 + n) as char
    }
}

/// Uppercase hexadecimal rendering of bytes.
pub fn hex_encode_upper(bytes: &[u8]) -> (r: String)
    ensures
        r@ == hex_upper(bytes@),
{
    let mut out = String::new();
    let mut i: usize = 0;
    while i < bytes.len()
        invariant
            i <= bytes@.len(),
            out@ == hex_upper(bytes@.take(i as int)),
        decreases bytes.len() - i,
    {
        assert(bytes@.take(i + 1).drop_last() =~= bytes@.take(i as int));
        let b = bytes[i];
        crate::text::push_char(&mut out, upper_hex_digit(b / 16));
        crate::text::push_char(&mut out, upper_hex_digit(b % 16));
        i = i + 1;
    }
    assert(bytes@.take(bytes@.len() as int) =~= bytes@);
    out
}

/// The uppercase hexadecimal rendering of the first eight bytes of the
/// SHA-256 digest of the UTF-8 encoding of a text.
pub fn sha256_upper_prefix(text: &str) -> (r: String)
    ensures
        r@ == hex_upper(sha256_of(encode_utf8(text@)).take(8)),
{
    let digest = sha256_digest(text.as_bytes());
    let head = vstd::slice::slice_subrange(digest.as_slice(), 0, 8);
    assert(head@ =~= digest@.take(8));
    hex_encode_upper(head)
}

/// The `Debug` rendering of a text: its characters, escaped as Rust escapes
/// them for debugging, between double quotes.
pub uninterp spec fn debug_quoted(s: Seq<char>) -> Seq<char>;

/// Renders a text with `<str as Debug>::fmt`.
///
/// Trusted: the result depends on the text alone and is named
/// `debug_quoted`; the escaping itself is left unstated.
#[verifier::external_body]
pub(crate) fn debug_text(s: &str) -> (r: String)
    ensures
        r@ == debug_quoted(s@),
{
    format!("{:?}", s)
}

/// The canonical identity of a byte sequence: `sha256:` and the lowercase
/// hexadecimal SHA-256 digest.
pub open spec fn sha256_identity_of(data: Seq<u8>) -> Seq<char> {
    "sha256:"@ + hex_lower(sha256_of(data))
}

/// A lowercase hexadecimal digit.
pub open spec fn is_lower_hex_digit(c: char) -> bool {
    ('0' <= c && c <= '9') || ('a' <= c && c <= 'f')
}

/// `d` is `sha256:` followed by 64 lowercase hexadecimal digits.
pub open spec fn is_lower_sha256_identity(d: Seq<char>) -> bool {
    &&& crate::affected::paths::is_sha256_identity(d)
    &&& forall|i: int| 7 <= i < d.len() ==> is_lower_hex_digit(#[trigger] d[i])
}

/// The lowercase rendering of `n` bytes has `2n` lowercase digits.
pub proof fn lemma_hex_lower_shape(bytes: Seq<u8>)
    ensures
        hex_lower(bytes).len() == 2 * bytes.len(),
        forall|i: int| 0 <= i < hex_lower(bytes).len() ==> is_lower_hex_digit(#[trigger] hex_lower(bytes)[i]),
    decreases bytes.len(),
{
    if bytes.len() > 0 {
        lemma_hex_lower_shape(bytes.drop_last());
        let b = bytes.last();
        assert(b / 16 < 16 && b % 16 < 16);
        let prev = hex_lower(bytes.drop_last());
        let h = hex_lower(bytes);
        assert forall|i: int| 0 <= i < h.len() implies is_lower_hex_digit(#[trigger] h[i]) by {
            if i < prev.len() {
                assert(h[i] == prev[i]);
            }
        }
    }
}

/// The identity of a 32-byte digest is `sha256:` and 64 lowercase digits.
pub proof fn lemma_identity_shape(data: Seq<u8>)
    requires
        sha256_of(data).len() == 32,
    ensures
        is_lower_sha256_identity(sha256_identity_of(data)),
{
    reveal_strlit("sha256:");
    let d = sha256_identity_of(data);
    let h = hex_lower(sha256_of(data));
    lemma_hex_lower_shape(sha256_of(data));
    assert(d.subrange(0, 7) =~= "sha256:"@);
    assert forall|i: int| 7 <= i < d.len() implies is_lower_hex_digit(#[trigger] d[i]) by {
        assert(d[i] == h[i - 7]);
    }
    assert forall|i: int| "sha256:"@.len() <= i < d.len() implies crate::text::is_hex_digit(#[trigger] d[i]) by {
        assert(d[i] == h[i - 7]);
    }
}

/// Computes canonical SHA-256 identity for exact bytes.
pub fn sha256(bytes: &[u8]) -> (r: String)
    ensures
        r@ == sha256_identity_of(bytes@),
        is_lower_sha256_identity(r@),
{
    let digest = sha256_digest(bytes);
    let hex = hex_encode(digest.as_slice());
    proof {
        lemma_identity_shape(bytes@);
    }
    crate::text::concat("sha256:", hex.as_str())
}

/// Canonical SHA-256 identity of the UTF-8 encoding of a text.
pub fn sha256_text(text: &str) -> (r: String)
    ensures
        r@ == sha256_identity_of(encode_utf8(text@)),
        is_lower_sha256_identity(r@),
{
    sha256(text.as_bytes())
}

/// The decimal digit character of a value below ten.
pub open spec fn decimal_digit_of(n: nat) -> char {
    (('0' as u8) + (n as u8)) as char
}

/// The shortest decimal rendering of a natural number.
pub open spec fn decimal_of(n: nat) -> Seq<char>
    decreases n,
{
    if n < 10 {
        seq![decimal_digit_of(n)]
    } else {
        decimal_of(n / 10) + seq![decimal_digit_of(n % 10)]
    }
}

/// Renders an unsigned integer in decimal.
pub fn decimal(n: u64) -> (r: String)
    ensures
        r@ == decimal_of(n as nat),
    decreases n,
{
    if n < 10 {
        let mut out = String::new();
        crate::text::push_char(&mut out, ((n as u8) + 48u8) as char);
        out
    } else {
        let mut out = decimal(n / 10);
        crate::text::push_char(&mut out, (((n % 10) as u8) + 48u8) as char);
        out
    }
}

} // verus!
