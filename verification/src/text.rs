//! Texts as sequences of characters: the passage between strings and
//! their characters, comparison and search, the classes of characters,
//! and positions in the UTF-8 encoding. Shared by the modules that work
//! on text.

use vstd::prelude::*;
use vstd::std_specs::iter::IteratorSpec;
use vstd::utf8::decode_utf8;
use vstd::utf8::encode_utf8;
use vstd::utf8::is_char_boundary;
use vstd::utf8::valid_utf8;

verus! {

/// The characters of `s`, in order.
pub fn chars_of(s: &str) -> (v: Vec<char>)
    ensures
        v@ == s@,
{
    let mut v: Vec<char> = Vec::new();
    for c in it: s.chars()
        invariant
            it.seq() == s@,
            v@ == it.seq().take(it.index() as int),
    {
        v.push(c);
    }
    v
}

/// `String::push`: the string, longer by the one character `c` at its end.
#[verifier::external_body]
pub(crate) fn push_char(s: &mut String, c: char)
    ensures
        final(s)@ == old(s)@.push(c),
{
    s.push(c)
}

/// Whether `a` and `b` hold the same characters.
pub fn text_eq(a: &str, b: &str) -> (r: bool)
    ensures
        r == (a@ == b@),
{
    let mut left = a.chars();
    let mut right = b.chars();
    let ghost mut seen: int = 0;
    loop
        invariant
            0 <= seen <= a@.len(),
            seen <= b@.len(),
            left.remaining() == a@.skip(seen),
            right.remaining() == b@.skip(seen),
            a@.take(seen) == b@.take(seen),
            left.decrease() is Some,
        decreases left.decrease()->0,
    {
        let x = left.next();
        let y = right.next();
        match x {
            None => {
                proof {
                    if y is None {
                        assert(a@.take(seen) == a@ && b@.take(seen) == b@);
                    }
                }
                return y.is_none();
            },
            Some(cx) => match y {
                None => {
                    return false;
                },
                Some(cy) => {
                    assert(a@[seen] == cx && b@[seen] == cy);
                    if cx != cy {
                        return false;
                    }
                    proof {
                        assert(a@.take(seen + 1) == a@.take(seen).push(cx));
                        assert(b@.take(seen + 1) == b@.take(seen).push(cy));
                        assert(a@.skip(seen).drop_first() == a@.skip(seen + 1));
                        assert(b@.skip(seen).drop_first() == b@.skip(seen + 1));
                        seen = seen + 1;
                    }
                },
            },
        }
    }
}

/// The string that holds the characters `chars[from..to]`.
pub fn string_of_range(chars: &Vec<char>, from: usize, to: usize) -> (s: String)
    requires
        from <= to <= chars.len(),
    ensures
        s@ == chars@.subrange(from as int, to as int),
{
    let mut s = String::new();
    let mut i: usize = from;
    while i < to
        invariant
            from <= i <= to <= chars.len(),
            s@ == chars@.subrange(from as int, i as int),
        decreases to - i,
    {
        push_char(&mut s, chars[i]);
        i = i + 1;
    }
    s
}

/// `a` comes before `b` in the order of strings: character by character,
/// by code point, a proper prefix before what it is a prefix of.
pub open spec fn text_less(a: Seq<char>, b: Seq<char>) -> bool
    decreases a.len(),
{
    if b.len() == 0 {
        false
    } else if a.len() == 0 {
        true
    } else if a[0] != b[0] {
        a[0] < b[0]
    } else {
        text_less(a.drop_first(), b.drop_first())
    }
}

/// No text comes before itself.
pub proof fn lemma_text_less_irreflexive(a: Seq<char>)
    ensures
        !text_less(a, a),
    decreases a.len(),
{
    if a.len() > 0 {
        lemma_text_less_irreflexive(a.drop_first());
    }
}

/// The order of texts is transitive.
pub proof fn lemma_text_less_transitive(a: Seq<char>, b: Seq<char>, c: Seq<char>)
    requires
        text_less(a, b),
        text_less(b, c),
    ensures
        text_less(a, c),
    decreases a.len(),
{
    if a.len() > 0 && a[0] == b[0] && b[0] == c[0] {
        lemma_text_less_transitive(a.drop_first(), b.drop_first(), c.drop_first());
    }
}

/// Of two different texts one comes before the other.
pub proof fn lemma_text_less_total(a: Seq<char>, b: Seq<char>)
    ensures
        text_less(a, b) || text_less(b, a) || a == b,
    decreases a.len(),
{
    if a.len() == 0 || b.len() == 0 {
        if a.len() == 0 && b.len() == 0 {
            assert(a =~= b);
        }
    } else if a[0] == b[0] {
        lemma_text_less_total(a.drop_first(), b.drop_first());
        if a.drop_first() == b.drop_first() {
            assert(a =~= seq![a[0]] + a.drop_first());
            assert(b =~= seq![b[0]] + b.drop_first());
        }
    }
}

/// Whether `a` comes before `b` in the order of strings.
pub fn text_lt(a: &str, b: &str) -> (r: bool)
    ensures
        r == text_less(a@, b@),
{
    let mut left = a.chars();
    let mut right = b.chars();
    loop
        invariant
            text_less(a@, b@) == text_less(left.remaining(), right.remaining()),
            left.decrease() is Some,
        decreases left.decrease()->0,
    {
        let ghost rest_left = left.remaining();
        let ghost rest_right = right.remaining();
        let x = left.next();
        let y = right.next();
        match y {
            None => {
                return false;
            },
            Some(cy) => match x {
                None => {
                    return true;
                },
                Some(cx) => {
                    assert(rest_left[0] == cx && rest_right[0] == cy);
                    if cx != cy {
                        return cx < cy;
                    }
                },
            },
        }
    }
}

/// Whether a character has the Unicode property `Alphabetic`: what
/// `char::is_alphabetic` returns.
pub uninterp spec fn is_alphabetic(c: char) -> bool;

/// Whether a character is a Unicode number (general categories `Nd`, `Nl`
/// and `No`): what `char::is_numeric` returns.
pub uninterp spec fn is_numeric(c: char) -> bool;

/// Whether a character has the Unicode property `Uppercase`: what
/// `char::is_uppercase` returns.
pub uninterp spec fn is_uppercase(c: char) -> bool;

/// Whether a character has the Unicode property `Lowercase`: what
/// `char::is_lowercase` returns.
pub uninterp spec fn is_lowercase(c: char) -> bool;

/// Whether a character has the Unicode property `White_Space`: what
/// `char::is_whitespace` returns.
pub uninterp spec fn is_whitespace(c: char) -> bool;

/// `char::is_alphabetic`.
#[verifier::external_body]
pub(crate) fn char_is_alphabetic(c: char) -> (r: bool)
    ensures
        r == is_alphabetic(c),
{
    c.is_alphabetic()
}

/// `char::is_numeric`.
#[verifier::external_body]
pub(crate) fn char_is_numeric(c: char) -> (r: bool)
    ensures
        r == is_numeric(c),
{
    c.is_numeric()
}

/// `char::is_uppercase`.
#[verifier::external_body]
pub(crate) fn char_is_uppercase(c: char) -> (r: bool)
    ensures
        r == is_uppercase(c),
{
    c.is_uppercase()
}

/// `char::is_lowercase`.
#[verifier::external_body]
pub(crate) fn char_is_lowercase(c: char) -> (r: bool)
    ensures
        r == is_lowercase(c),
{
    c.is_lowercase()
}

/// `char::is_whitespace`.
#[verifier::external_body]
pub(crate) fn char_is_whitespace(c: char) -> (r: bool)
    ensures
        r == is_whitespace(c),
{
    c.is_whitespace()
}

/// A letter or a number, as `char::is_alphanumeric` puts the two together.
pub open spec fn is_alphanumeric(c: char) -> bool {
    is_alphabetic(c) || is_numeric(c)
}

/// One of the ten ASCII digits.
pub open spec fn is_ascii_digit(c: char) -> bool {
    '0' <= c <= '9'
}

/// A space, a tab, a line feed, a form feed or a carriage return.
pub open spec fn is_ascii_whitespace(c: char) -> bool {
    c == ' ' || c == '\t' || c == '\n' || c == '\x0C' || c == '\r'
}

/// Whether `c` is a letter or a number.
pub fn char_is_alphanumeric(c: char) -> (r: bool)
    ensures
        r == is_alphanumeric(c),
{
    char_is_alphabetic(c) || char_is_numeric(c)
}

/// Whether `c` is one of the ten ASCII digits.
pub fn char_is_ascii_digit(c: char) -> (r: bool)
    ensures
        r == is_ascii_digit(c),
{
    '0' <= c && c <= '9'
}

/// Whether `c` is a space, a tab, a line feed, a form feed or a carriage
/// return.
pub fn char_is_ascii_whitespace(c: char) -> (r: bool)
    ensures
        r == is_ascii_whitespace(c),
{
    c == ' ' || c == '\t' || c == '\n' || c == '\x0C' || c == '\r'
}

/// The classes of characters that whole strings are tested for.
#[derive(Clone, Copy, Debug, PartialEq, Eq)]
pub enum CharClass {
    /// Letters (`Alphabetic`).
    Alphabetic,
    /// Letters and numbers.
    Alphanumeric,
    /// The ten ASCII digits.
    AsciiDigit,
    /// Space, tab, line feed, form feed, carriage return.
    AsciiWhitespace,
    /// Upper-case letters (`Uppercase`).
    Uppercase,
    /// Lower-case letters (`Lowercase`).
    Lowercase,
}

/// `c` belongs to `class`.
pub open spec fn in_class(class: CharClass, c: char) -> bool {
    match class {
        CharClass::Alphabetic => is_alphabetic(c),
        CharClass::Alphanumeric => is_alphanumeric(c),
        CharClass::AsciiDigit => is_ascii_digit(c),
        CharClass::AsciiWhitespace => is_ascii_whitespace(c),
        CharClass::Uppercase => is_uppercase(c),
        CharClass::Lowercase => is_lowercase(c),
    }
}

/// Every character of `s` belongs to `class`.
pub open spec fn all_in_class(s: Seq<char>, class: CharClass) -> bool {
    forall|i: int| 0 <= i < s.len() ==> in_class(class, #[trigger] s[i])
}

/// Whether `c` belongs to `class`.
pub fn char_in_class(class: CharClass, c: char) -> (r: bool)
    ensures
        r == in_class(class, c),
{
    match class {
        CharClass::Alphabetic => char_is_alphabetic(c),
        CharClass::Alphanumeric => char_is_alphanumeric(c),
        CharClass::AsciiDigit => char_is_ascii_digit(c),
        CharClass::AsciiWhitespace => char_is_ascii_whitespace(c),
        CharClass::Uppercase => char_is_uppercase(c),
        CharClass::Lowercase => char_is_lowercase(c),
    }
}

/// Whether every character of `s` belongs to `class`; so it is where `s`
/// is empty.
pub fn every_char_in_class(s: &str, class: CharClass) -> (r: bool)
    ensures
        r == all_in_class(s@, class),
{
    let mut all: bool = true;
    for c in it: s.chars()
        invariant
            it.seq() == s@,
            all == all_in_class(it.seq().take(it.index() as int), class),
    {
        let ghost seen = it.seq().take(it.index() as int);
        let ghost next = it.seq().take(it.index() + 1);
        assert(seen == next.take(it.index() as int));
        assert(next[it.index() as int] == c);
        if !char_in_class(class, c) {
            all = false;
        }
    }
    assert(s@.take(s@.len() as int) == s@);
    all
}

/// `s`, `n` times in a row.
pub open spec fn repeat_text(s: Seq<char>, n: nat) -> Seq<char>
    decreases n,
{
    if n == 0 {
        Seq::empty()
    } else {
        repeat_text(s, (n - 1) as nat) + s
    }
}

/// `n` times the character `c`.
pub open spec fn run_of(c: char, n: nat) -> Seq<char> {
    Seq::new(n, |i: int| c)
}

/// Appends `n` times the character `c` to `s`.
pub fn push_run(s: &mut String, c: char, n: usize)
    ensures
        final(s)@ == old(s)@ + run_of(c, n as nat),
{
    let mut i: usize = 0;
    assert(s@ =~= old(s)@ + run_of(c, 0));
    while i < n
        invariant
            i <= n,
            s@ == old(s)@ + run_of(c, i as nat),
        decreases n - i,
    {
        push_char(s, c);
        i = i + 1;
        assert(s@ =~= old(s)@ + run_of(c, i as nat));
    }
}

/// `needle` stands in `haystack` at position `at`.
pub open spec fn occurs_at<T>(haystack: Seq<T>, needle: Seq<T>, at: int) -> bool {
    &&& 0 <= at
    &&& at + needle.len() <= haystack.len()
    &&& haystack.subrange(at, at + needle.len()) == needle
}

/// `needle` stands somewhere in `haystack`.
pub open spec fn occurs_in<T>(haystack: Seq<T>, needle: Seq<T>) -> bool {
    exists|at: int| occurs_at(haystack, needle, at)
}

/// Whether `needle` stands in `haystack` at position `at`.
pub fn matches_at(haystack: &Vec<char>, needle: &Vec<char>, at: usize) -> (r: bool)
    requires
        at + needle.len() <= haystack.len(),
    ensures
        r == occurs_at(haystack@, needle@, at as int),
{
    let mut k: usize = 0;
    while k < needle.len()
        invariant
            k <= needle.len(),
            at + needle.len() <= haystack.len(),
            forall|j: int| 0 <= j < k ==> haystack@[at + j] == needle@[j],
        decreases needle.len() - k,
    {
        if haystack[at + k] != needle[k] {
            assert(haystack@.subrange(at as int, at + needle.len())[k as int] != needle@[k as int]);
            return false;
        }
        k = k + 1;
    }
    assert(haystack@.subrange(at as int, at + needle.len()) =~= needle@);
    true
}

/// Whether `needle` stands somewhere in `haystack`.
pub fn contains_chars(haystack: &Vec<char>, needle: &Vec<char>) -> (r: bool)
    ensures
        r == occurs_in(haystack@, needle@),
{
    if needle.len() > haystack.len() {
        return false;
    }
    let last: usize = haystack.len() - needle.len();
    let mut at: usize = 0;
    loop
        invariant
            last == haystack.len() - needle.len(),
            needle.len() <= haystack.len(),
            at <= last,
            forall|j: int| 0 <= j < at ==> !occurs_at(haystack@, needle@, j),
        decreases last - at,
    {
        if matches_at(haystack, needle, at) {
            return true;
        }
        if at == last {
            return false;
        }
        at = at + 1;
    }
}

/// Whether `needle` stands in `haystack` at position `at`, where it may
/// not even fit there.
pub fn stands_at(haystack: &Vec<char>, needle: &Vec<char>, at: usize) -> (r: bool)
    ensures
        r == occurs_at(haystack@, needle@, at as int),
{
    if at > haystack.len() || needle.len() > haystack.len() - at {
        false
    } else {
        matches_at(haystack, needle, at)
    }
}

/// The texts that the strings of `v` spell.
pub open spec fn texts(v: Seq<String>) -> Seq<Seq<char>> {
    v.map_values(|s: String| s@)
}

/// The length of `text` in bytes of its UTF-8 encoding.
pub open spec fn byte_len(text: Seq<char>) -> int {
    encode_utf8(text).len() as int
}

/// The characters that the bytes `from..to` of the encoding of `text`
/// spell.
pub open spec fn byte_range(text: Seq<char>, from: int, to: int) -> Seq<char> {
    decode_utf8(encode_utf8(text).subrange(from, to))
}

/// `at` is a byte offset into the encoding of `text` that lies at its
/// start, at its end, or between two characters.
pub open spec fn is_boundary(text: Seq<char>, at: int) -> bool {
    0 <= at <= byte_len(text) && is_char_boundary(encode_utf8(text), at)
}

/// A boundary of a valid encoding is a boundary of each prefix that
/// reaches it, where the prefix ends at a boundary itself.
pub proof fn lemma_boundary_in_prefix(bytes: Seq<u8>, at: int, end: int)
    requires
        valid_utf8(bytes),
        0 <= at <= end <= bytes.len(),
        is_char_boundary(bytes, at),
        is_char_boundary(bytes, end),
    ensures
        valid_utf8(bytes.subrange(0, end)),
        is_char_boundary(bytes.subrange(0, end), at),
{
    let prefix = bytes.subrange(0, end);
    vstd::utf8::valid_utf8_split(bytes, end);
    if at == end {
        vstd::utf8::is_char_boundary_start_end_of_seq(prefix);
    } else {
        vstd::utf8::is_char_boundary_iff_not_is_continuation_byte(bytes, at);
        vstd::utf8::is_char_boundary_iff_not_is_continuation_byte(prefix, at);
    }
}

/// A boundary of what follows a boundary of a valid encoding is a
/// boundary of the whole, further on by where the part begins.
pub proof fn lemma_boundary_in_suffix(bytes: Seq<u8>, from: int, at: int)
    requires
        valid_utf8(bytes),
        0 <= from <= bytes.len(),
        is_char_boundary(bytes, from),
        0 <= at <= bytes.len() - from,
        is_char_boundary(bytes.subrange(from, bytes.len() as int), at),
    ensures
        valid_utf8(bytes.subrange(from, bytes.len() as int)),
        is_char_boundary(bytes, from + at),
{
    let suffix = bytes.subrange(from, bytes.len() as int);
    vstd::utf8::valid_utf8_split(bytes, from);
    if from + at == bytes.len() {
        vstd::utf8::is_char_boundary_start_end_of_seq(bytes);
    } else {
        vstd::utf8::is_char_boundary_iff_not_is_continuation_byte(suffix, at);
        vstd::utf8::is_char_boundary_iff_not_is_continuation_byte(bytes, from + at);
    }
}

} // verus!
