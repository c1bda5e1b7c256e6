//! Character-sequence helpers shared by every evaluator.
//!
//! Canonical text order is the lexicographic order of Unicode scalar values,
//! which coincides with the byte order of UTF-8 encodings.

use vstd::prelude::*;
use vstd::utf8::encode_utf8;

verus! {

/// Lexicographic non-strict order over character sequences.
pub open spec fn seq_le(a: Seq<char>, b: Seq<char>) -> bool
    decreases a.len(),
{
    if a.len() == 0 {
        true
    } else if b.len() == 0 {
        false
    } else if a[0] < b[0] {
        true
    } else if a[0] > b[0] {
        false
    } else {
        seq_le(a.drop_first(), b.drop_first())
    }
}

/// Lexicographic strict order over character sequences.
pub open spec fn seq_lt(a: Seq<char>, b: Seq<char>) -> bool {
    seq_le(a, b) && a != b
}

/// `prefix` is an initial segment of `s`.
pub open spec fn is_prefix(prefix: Seq<char>, s: Seq<char>) -> bool {
    prefix.len() <= s.len() && s.subrange(0, prefix.len() as int) == prefix
}

/// `suffix` is a final segment of `s`.
pub open spec fn is_suffix(suffix: Seq<char>, s: Seq<char>) -> bool {
    suffix.len() <= s.len() && s.subrange(s.len() - suffix.len(), s.len() as int) == suffix
}

/// `sub` occurs contiguously somewhere in `s`.
pub open spec fn has_infix(sub: Seq<char>, s: Seq<char>) -> bool {
    exists|i: int| 0 <= i <= s.len() - sub.len() && #[trigger] s.subrange(i, i + sub.len()) == sub
}

/// Every adjacent pair of a sequence of texts is strictly increasing.
pub open spec fn strictly_sorted(s: Seq<Seq<char>>) -> bool {
    forall|i: int, j: int| 0 <= i < j < s.len() ==> seq_lt(#[trigger] s[i], #[trigger] s[j])
}

/// Every pair of a sequence of texts is in non-decreasing order.
pub open spec fn sorted_texts(s: Seq<Seq<char>>) -> bool {
    forall|i: int, j: int| 0 <= i < j < s.len() ==> seq_le(#[trigger] s[i], #[trigger] s[j])
}

/// The character views of a sequence of strings.
pub open spec fn texts(v: Seq<String>) -> Seq<Seq<char>> {
    v.map_values(|s: String| s@)
}

pub proof fn lemma_seq_le_reflexive(a: Seq<char>)
    ensures
        seq_le(a, a),
    decreases a.len(),
{
    if a.len() > 0 {
        lemma_seq_le_reflexive(a.drop_first());
    }
}

pub proof fn lemma_seq_le_transitive(a: Seq<char>, b: Seq<char>, c: Seq<char>)
    requires
        seq_le(a, b),
        seq_le(b, c),
    ensures
        seq_le(a, c),
    decreases a.len(),
{
    if a.len() > 0 && b.len() > 0 && c.len() > 0 {
        if a[0] == b[0] && b[0] == c[0] {
            lemma_seq_le_transitive(a.drop_first(), b.drop_first(), c.drop_first());
        }
    }
}

pub proof fn lemma_seq_le_total(a: Seq<char>, b: Seq<char>)
    ensures
        seq_le(a, b) || seq_le(b, a),
    decreases a.len(),
{
    if a.len() > 0 && b.len() > 0 && a[0] == b[0] {
        lemma_seq_le_total(a.drop_first(), b.drop_first());
    }
}

pub proof fn lemma_seq_le_antisymmetric(a: Seq<char>, b: Seq<char>)
    requires
        seq_le(a, b),
        seq_le(b, a),
    ensures
        a == b,
    decreases a.len(),
{
    if a.len() > 0 && b.len() > 0 {
        lemma_seq_le_antisymmetric(a.drop_first(), b.drop_first());
        assert(a[0] == b[0]);
        assert(a =~= seq![a[0]] + a.drop_first());
        assert(b =~= seq![b[0]] + b.drop_first());
    }
}

/// Strict text order is transitive.
pub proof fn lemma_seq_lt_transitive(a: Seq<char>, b: Seq<char>, c: Seq<char>)
    requires
        seq_lt(a, b),
        seq_lt(b, c),
    ensures
        seq_lt(a, c),
{
    lemma_seq_le_transitive(a, b, c);
    if a == c {
        lemma_seq_le_antisymmetric(a, b);
    }
}

/// Of two distinct texts, one strictly precedes the other.
pub proof fn lemma_seq_lt_total(a: Seq<char>, b: Seq<char>)
    requires
        a != b,
    ensures
        seq_lt(a, b) || seq_lt(b, a),
{
    lemma_seq_le_total(a, b);
}

/// Collects the characters of a string slice.
pub fn chars_of(s: &str) -> (out: Vec<char>)
    ensures
        out@ == s@,
{
    let mut out: Vec<char> = Vec::new();
    for c in it: s.chars()
        invariant
            out@ == it.seq().take(it.index() as int),
    {
        out.push(c);
    }
    out
}

/// Lexicographic comparison of two character vectors.
pub fn chars_le(a: &Vec<char>, b: &Vec<char>) -> (r: bool)
    ensures
        r == seq_le(a@, b@),
{
    let mut i: usize = 0;
    assert(a@.skip(0) =~= a@);
    assert(b@.skip(0) =~= b@);
    while i < a.len() && i < b.len()
        invariant
            i <= a.len(),
            i <= b.len(),
            seq_le(a@, b@) == seq_le(a@.skip(i as int), b@.skip(i as int)),
        decreases a.len() - i,
    {
        let x = a[i];
        let y = b[i];
        assert(a@.skip(i as int)[0] == a@[i as int]);
        assert(b@.skip(i as int)[0] == b@[i as int]);
        if x < y {
            return true;
        }
        if x > y {
            return false;
        }
        assert(a@.skip(i as int).drop_first() =~= a@.skip(i + 1));
        assert(b@.skip(i as int).drop_first() =~= b@.skip(i + 1));
        i = i + 1;
    }
    i == a.len()
}

/// Character-wise equality of two character vectors.
pub fn chars_eq(a: &Vec<char>, b: &Vec<char>) -> (r: bool)
    ensures
        r == (a@ == b@),
{
    if a.len() != b.len() {
        return false;
    }
    let mut i: usize = 0;
    while i < a.len()
        invariant
            i <= a.len(),
            a.len() == b.len(),
            forall|k: int| 0 <= k < i ==> a@[k] == b@[k],
        decreases a.len() - i,
    {
        if a[i] != b[i] {
            return false;
        }
        i = i + 1;
    }
    assert(a@ =~= b@);
    true
}

/// Canonical non-strict text order.
pub fn text_le(a: &str, b: &str) -> (r: bool)
    ensures
        r == seq_le(a@, b@),
{
    let x = chars_of(a);
    let y = chars_of(b);
    chars_le(&x, &y)
}

/// Canonical strict text order.
pub fn text_lt(a: &str, b: &str) -> (r: bool)
    ensures
        r == seq_lt(a@, b@),
{
    let x = chars_of(a);
    let y = chars_of(b);
    chars_le(&x, &y) && !chars_eq(&x, &y)
}

/// Text equality, decided on the UTF-8 encodings: the encoding of a text
/// determines the text.
pub fn text_eq(a: &str, b: &str) -> (r: bool)
    ensures
        r == (a@ == b@),
{
    let x = a.as_bytes();
    let y = b.as_bytes();
    proof {
        vstd::utf8::encode_utf8_decode_utf8(a@);
        vstd::utf8::encode_utf8_decode_utf8(b@);
    }
    if x.len() != y.len() {
        assert(x@ != y@);
        return false;
    }
    let mut i: usize = 0;
    while i < x.len()
        invariant
            x@ == encode_utf8(a@),
            y@ == encode_utf8(b@),
            x@.len() == y@.len(),
            i <= x@.len(),
            forall|k: int| 0 <= k < i ==> x@[k] == y@[k],
        decreases x.len() - i,
    {
        if x[i] != y[i] {
            assert(x@ != y@);
            return false;
        }
        i = i + 1;
    }
    assert(x@ =~= y@);
    true
}

/// Returns whether `s` begins with `prefix`.
pub fn starts_with(s: &str, prefix: &str) -> (r: bool)
    ensures
        r == is_prefix(prefix@, s@),
{
    let x = chars_of(s);
    let p = chars_of(prefix);
    if p.len() > x.len() {
        return false;
    }
    let mut i: usize = 0;
    while i < p.len()
        invariant
            p.len() <= x.len(),
            x@ == s@,
            p@ == prefix@,
            i <= p.len(),
            forall|k: int| 0 <= k < i ==> x@[k] == p@[k],
        decreases p.len() - i,
    {
        if x[i] != p[i] {
            assert(x@.subrange(0, p@.len() as int)[i as int] != p@[i as int]);
            return false;
        }
        i = i + 1;
    }
    assert(x@.subrange(0, p@.len() as int) =~= p@);
    true
}

/// Returns whether `s` ends with `suffix`.
pub fn ends_with(s: &str, suffix: &str) -> (r: bool)
    ensures
        r == is_suffix(suffix@, s@),
{
    let x = chars_of(s);
    let p = chars_of(suffix);
    if p.len() > x.len() {
        return false;
    }
    let offset = x.len() - p.len();
    let mut i: usize = 0;
    while i < p.len()
        invariant
            p.len() <= x.len(),
            offset == x.len() - p.len(),
            x@ == s@,
            p@ == suffix@,
            i <= p.len(),
            forall|k: int| 0 <= k < i ==> x@[offset + k] == p@[k],
        decreases p.len() - i,
    {
        if x[offset + i] != p[i] {
            assert(x@.subrange(offset as int, x@.len() as int)[i as int] != p@[i as int]);
            return false;
        }
        i = i + 1;
    }
    assert(x@.subrange(offset as int, x@.len() as int) =~= p@);
    true
}

/// Returns whether `c` occurs in `s`.
pub fn contains_char(s: &str, c: char) -> (r: bool)
    ensures
        r == s@.contains(c),
{
    let x = chars_of(s);
    let mut i: usize = 0;
    while i < x.len()
        invariant
            i <= x.len(),
            x@ == s@,
            forall|k: int| 0 <= k < i ==> x@[k] != c,
        decreases x.len() - i,
    {
        if x[i] == c {
            assert(s@[i as int] == c);
            return true;
        }
        i = i + 1;
    }
    false
}

/// Returns whether `sub` occurs contiguously in `s`.
pub fn contains_text(s: &str, sub: &str) -> (r: bool)
    ensures
        r == has_infix(sub@, s@),
{
    let x = chars_of(s);
    let p = chars_of(sub);
    if p.len() > x.len() {
        return false;
    }
    let last = x.len() - p.len();
    let mut i: usize = 0;
    while i <= last
        invariant
            p.len() <= x.len(),
            last == x.len() - p.len(),
            x@ == s@,
            p@ == sub@,
            i <= last,
            forall|k: int| 0 <= k < i ==> #[trigger] x@.subrange(k, k + p@.len()) != p@,
        ensures
            forall|k: int| 0 <= k <= last ==> #[trigger] x@.subrange(k, k + p@.len()) != p@,
        decreases last - i,
    {
        let mut j: usize = 0;
        let mut matched = true;
        while j < p.len()
            invariant
                p.len() <= x.len(),
                i <= last,
                last == x.len() - p.len(),
                j <= p.len(),
                matched ==> forall|k: int| 0 <= k < j ==> x@[i + k] == p@[k],
                !matched ==> x@.subrange(i as int, i + p@.len()) != p@,
            decreases p.len() - j,
        {
            if x[i + j] != p[j] {
                assert(x@.subrange(i as int, i + p@.len())[j as int] != p@[j as int]);
                matched = false;
            }
            j = j + 1;
        }
        if matched {
            assert(x@.subrange(i as int, i + p@.len()) =~= p@);
            return true;
        }
        if i == last {
            break;
        }
        i = i + 1;
    }
    assert forall|k: int| 0 <= k <= s@.len() - sub@.len() implies #[trigger] s@.subrange(
        k,
        k + sub@.len(),
    ) != sub@ by {}
    false
}

/// Builds an owned string from characters.
pub fn string_of(chars: &Vec<char>) -> (out: String)
    ensures
        out@ == chars@,
{
    let mut out = String::new();
    let mut i: usize = 0;
    while i < chars.len()
        invariant
            i <= chars.len(),
            out@ == chars@.take(i as int),
        decreases chars.len() - i,
    {
        push_char(&mut out, chars[i]);
        assert(chars@.take(i + 1) =~= chars@.take(i as int).push(chars@[i as int]));
        i = i + 1;
    }
    assert(chars@.take(chars@.len() as int) =~= chars@);
    out
}

/// Returns the characters of `s` from `start` to its end.
pub fn suffix_from(s: &str, start: usize) -> (out: String)
    requires
        start <= s@.len(),
    ensures
        out@ == s@.skip(start as int),
{
    let x = chars_of(s);
    let mut tail: Vec<char> = Vec::new();
    let mut i = start;
    while i < x.len()
        invariant
            start <= i <= x.len(),
            x@ == s@,
            tail@ == x@.subrange(start as int, i as int),
        decreases x.len() - i,
    {
        tail.push(x[i]);
        assert(x@.subrange(start as int, i + 1) =~= x@.subrange(start as int, i as int).push(
            x@[i as int],
        ));
        i = i + 1;
    }
    assert(x@.subrange(start as int, x@.len() as int) =~= s@.skip(start as int));
    string_of(&tail)
}

/// Returns the characters of `s` before `end`.
pub fn prefix_until(s: &str, end: usize) -> (out: String)
    requires
        end <= s@.len(),
    ensures
        out@ == s@.take(end as int),
{
    let x = chars_of(s);
    let mut head: Vec<char> = Vec::new();
    let mut i: usize = 0;
    while i < end
        invariant
            i <= end <= x.len(),
            x@ == s@,
            head@ == x@.take(i as int),
        decreases end - i,
    {
        head.push(x[i]);
        assert(x@.take(i + 1) =~= x@.take(i as int).push(x@[i as int]));
        i = i + 1;
    }
    string_of(&head)
}

/// Removes `prefix` from the start of `s` when present, else copies `s`.
pub fn strip_prefix_or_self(s: &str, prefix: &str) -> (out: String)
    ensures
        is_prefix(prefix@, s@) ==> out@ == s@.skip(prefix@.len() as int),
        !is_prefix(prefix@, s@) ==> out@ == s@,
{
    if starts_with(s, prefix) {
        let n = chars_of(prefix).len();
        suffix_from(s, n)
    } else {
        String::from_str(s)
    }
}

/// Concatenates two texts.
pub fn concat(a: &str, b: &str) -> (out: String)
    ensures
        out@ == a@ + b@,
{
    let mut out = String::from_str(a);
    out.append(b);
    out
}

/// Copies a string.
pub fn copy_text(s: &str) -> (out: String)
    ensures
        out@ == s@,
{
    String::from_str(s)
}

/// Copies a list of strings.
pub fn copy_texts(v: &[String]) -> (r: Vec<String>)
    ensures
        texts(r@) == texts(v@),
{
    let mut out: Vec<String> = Vec::new();
    let mut i: usize = 0;
    while i < v.len()
        invariant
            i <= v@.len(),
            texts(out@) == texts(v@).take(i as int),
        decreases v.len() - i,
    {
        let ghost old = out@;
        out.push(copy_text(v[i].as_str()));
        assert(texts(out@) =~= texts(old).push(v@[i as int]@));
        assert(texts(v@).take(i + 1) =~= texts(v@).take(i as int).push(v@[i as int]@));
        i = i + 1;
    }
    assert(texts(v@).take(v@.len() as int) =~= texts(v@));
    out
}

/// Appends one character to a string (`String::push`).
///
/// Trusted: states that `String::push` appends exactly the given character.
#[verifier::external_body]
pub(crate) fn push_char(s: &mut String, c: char)
    ensures
        final(s)@ == old(s)@.push(c),
{
    s.push(c);
}

/// Returns whether a text sequence contains the given text.
pub fn texts_contain(values: &Vec<String>, needle: &str) -> (r: bool)
    ensures
        r == texts(values@).contains(needle@),
{
    let mut i: usize = 0;
    while i < values.len()
        invariant
            i <= values.len(),
            forall|k: int| 0 <= k < i ==> values@[k]@ != needle@,
        decreases values.len() - i,
    {
        if text_eq(values[i].as_str(), needle) {
            assert(texts(values@)[i as int] == needle@);
            return true;
        }
        i = i + 1;
    }
    assert forall|k: int| 0 <= k < texts(values@).len() implies texts(values@)[k] != needle@ by {
        assert(texts(values@)[k] == values@[k]@);
    }
    false
}

/// Returns whether the strings are strictly increasing in canonical text order.
pub fn is_strictly_sorted(values: &Vec<String>) -> (r: bool)
    ensures
        r == strictly_sorted(texts(values@)),
{
    let ghost t = texts(values@);
    let mut i: usize = 0;
    while values.len() > 0 && i < values.len() - 1
        invariant
            i <= values.len(),
            t == texts(values@),
            forall|k: int| 0 <= k < i && k < t.len() - 1 ==> seq_lt(#[trigger] t[k], t[k + 1]),
        decreases values.len() - i,
    {
        if !text_lt(values[i].as_str(), values[i + 1].as_str()) {
            assert(t[i as int] == values@[i as int]@ && t[i + 1] == values@[i + 1]@);
            return false;
        }
        assert(t[i as int] == values@[i as int]@ && t[i + 1] == values@[i + 1]@);
        i = i + 1;
    }
    proof {
        lemma_adjacent_strict_implies_sorted(t);
    }
    true
}

/// Adjacent strict order implies global strict order.
pub proof fn lemma_adjacent_strict_implies_sorted(s: Seq<Seq<char>>)
    requires
        forall|i: int| 0 <= i < s.len() - 1 ==> seq_lt(#[trigger] s[i], s[i + 1]),
    ensures
        strictly_sorted(s),
    decreases s.len(),
{
    if s.len() > 1 {
        let t = s.drop_last();
        assert forall|i: int| 0 <= i < t.len() - 1 implies seq_lt(#[trigger] t[i], t[i + 1]) by {
            assert(t[i] == s[i] && t[i + 1] == s[i + 1]);
        }
        lemma_adjacent_strict_implies_sorted(t);
        assert forall|i: int, j: int| 0 <= i < j < s.len() implies seq_lt(
            #[trigger] s[i],
            #[trigger] s[j],
        ) by {
            if j < s.len() - 1 {
                assert(t[i] == s[i] && t[j] == s[j]);
            } else if i < j - 1 {
                assert(t[i] == s[i] && t[j - 1] == s[j - 1]);
                assert(seq_lt(s[j - 1], s[j]));
                lemma_seq_le_transitive(s[i], s[j - 1], s[j]);
                if s[i] == s[j] {
                    lemma_seq_le_antisymmetric(s[i], s[j - 1]);
                }
            }
        }
    }
}

/// Unicode `White_Space` property (the characters `char::is_whitespace` accepts).
pub open spec fn is_white_space(c: char) -> bool {
    c == '\t' || c == '\n' || c == '\u{0B}' || c == '\u{0C}' || c == '\r' || c == ' '
        || c == '\u{85}' || c == '\u{A0}' || c == '\u{1680}' || ('\u{2000}' <= c
        && c <= '\u{200A}') || c == '\u{2028}' || c == '\u{2029}' || c == '\u{202F}' || c
        == '\u{205F}' || c == '\u{3000}'
}

/// ASCII hexadecimal digit.
pub open spec fn is_hex_digit(c: char) -> bool {
    ('0' <= c && c <= '9') || ('a' <= c && c <= 'f') || ('A' <= c && c <= 'F')
}

/// ASCII letter or digit.
pub open spec fn is_ascii_alnum(c: char) -> bool {
    ('0' <= c && c <= '9') || ('a' <= c && c <= 'z') || ('A' <= c && c <= 'Z')
}

/// Every character is white space (the text trims to nothing).
pub open spec fn is_blank(s: Seq<char>) -> bool {
    forall|i: int| 0 <= i < s.len() ==> is_white_space(#[trigger] s[i])
}

/// The text has no leading or trailing white space.
pub open spec fn is_trimmed(s: Seq<char>) -> bool {
    s.len() == 0 || (!is_white_space(s[0]) && !is_white_space(s[s.len() - 1]))
}

/// Decides `is_white_space`.
pub fn white_space(c: char) -> (r: bool)
    ensures
        r == is_white_space(c),
{
    c == '\t' || c == '\n' || c == '\u{0B}' || c == '\u{0C}' || c == '\r' || c == ' '
        || c == '\u{85}' || c == '\u{A0}' || c == '\u{1680}' || ('\u{2000}' <= c
        && c <= '\u{200A}') || c == '\u{2028}' || c == '\u{2029}' || c == '\u{202F}' || c
        == '\u{205F}' || c == '\u{3000}'
}

/// Decides `is_hex_digit`.
pub fn hex_digit(c: char) -> (r: bool)
    ensures
        r == is_hex_digit(c),
{
    ('0' <= c && c <= '9') || ('a' <= c && c <= 'f') || ('A' <= c && c <= 'F')
}

/// Decides `is_ascii_alnum`.
pub fn ascii_alnum(c: char) -> (r: bool)
    ensures
        r == is_ascii_alnum(c),
{
    ('0' <= c && c <= '9') || ('a' <= c && c <= 'z') || ('A' <= c && c <= 'Z')
}

/// Decides `is_blank`.
pub fn blank(s: &str) -> (r: bool)
    ensures
        r == is_blank(s@),
{
    let x = chars_of(s);
    let mut i: usize = 0;
    while i < x.len()
        invariant
            i <= x.len(),
            x@ == s@,
            forall|k: int| 0 <= k < i ==> is_white_space(#[trigger] x@[k]),
        decreases x.len() - i,
    {
        if !white_space(x[i]) {
            return false;
        }
        i = i + 1;
    }
    true
}

/// Decides `is_trimmed`.
pub fn trimmed(s: &str) -> (r: bool)
    ensures
        r == is_trimmed(s@),
{
    let x = chars_of(s);
    if x.len() == 0 {
        return true;
    }
    !white_space(x[0]) && !white_space(x[x.len() - 1])
}

/// The texts joined by a separator.
pub open spec fn join_texts(items: Seq<Seq<char>>, sep: Seq<char>) -> Seq<char>
    decreases items.len(),
{
    if items.len() == 0 {
        Seq::empty()
    } else if items.len() == 1 {
        items[0]
    } else {
        join_texts(items.drop_last(), sep) + sep + items.last()
    }
}

/// Joins texts with a separator.
pub fn join(items: &[String], sep: &str) -> (r: String)
    ensures
        r@ == join_texts(texts(items@), sep@),
{
    let ghost t = texts(items@);
    let mut out = String::new();
    let mut i: usize = 0;
    while i < items.len()
        invariant
            t == texts(items@),
            i <= items@.len(),
            out@ == join_texts(t.take(i as int), sep@),
        decreases items.len() - i,
    {
        assert(t.take(i + 1).drop_last() =~= t.take(i as int));
        assert(t.take(i + 1).last() == items@[i as int]@);
        if i == 0 {
            assert(t.take(1) =~= seq![items@[0]@]);
            out = copy_text(items[0].as_str());
        } else {
            let head = concat(out.as_str(), sep);
            out = concat(head.as_str(), items[i].as_str());
        }
        i = i + 1;
    }
    assert(t.take(items@.len() as int) =~= t);
    out
}

/// Each text with a prefix.
pub open spec fn prefixed(items: Seq<Seq<char>>, prefix: Seq<char>) -> Seq<Seq<char>> {
    items.map_values(|x: Seq<char>| prefix + x)
}

/// Prefixes each text.
pub fn prefix_each(items: &[String], prefix: &str) -> (r: Vec<String>)
    ensures
        texts(r@) == prefixed(texts(items@), prefix@),
{
    let mut out: Vec<String> = Vec::new();
    let mut i: usize = 0;
    while i < items.len()
        invariant
            i <= items@.len(),
            texts(out@) == prefixed(texts(items@), prefix@).take(i as int),
        decreases items.len() - i,
    {
        let ghost old = out@;
        out.push(concat(prefix, items[i].as_str()));
        assert(texts(out@) =~= texts(old).push(prefix@ + items@[i as int]@));
        assert(prefixed(texts(items@), prefix@).take(i + 1) =~= prefixed(texts(items@), prefix@).take(i as int).push(prefix@ + items@[i as int]@));
        i = i + 1;
    }
    assert(prefixed(texts(items@), prefix@).take(items@.len() as int) =~= prefixed(texts(items@), prefix@));
    out
}

} // verus!
