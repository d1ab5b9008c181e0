//! Functions on strings.
//!
//! Positions and widths count characters where a function says so, and
//! bytes of the UTF-8 encoding where it says that.

use vstd::prelude::*;
use vstd::string::StrSliceExecFns;
use vstd::string::StringExecFns;
use vstd::string::StringSliceAdditionalSpecFns;
use vstd::utf8::encode_utf8;
use crate::text::byte_len;
use crate::text::byte_range;
use crate::text::is_boundary;
use crate::text::lemma_boundary_in_prefix;
use crate::text::all_in_class;
use crate::text::char_is_whitespace;
use crate::text::chars_of;
use crate::text::contains_chars;
use crate::text::every_char_in_class;
use crate::text::is_whitespace;
use crate::text::occurs_at;
use crate::text::occurs_in;
use crate::text::push_char;
use crate::text::repeat_text;
use crate::text::stands_at;
use crate::text::string_of_range;
use crate::text::texts;
use crate::text::CharClass;

verus! {

/// The texts of `parts` in a row, with `sep` between each two.
pub open spec fn joined(parts: Seq<Seq<char>>, sep: Seq<char>) -> Seq<char>
    decreases parts.len(),
{
    if parts.len() == 0 {
        Seq::empty()
    } else if parts.len() == 1 {
        parts[0]
    } else {
        joined(parts.drop_last(), sep) + sep + parts.last()
    }
}

/// The strings of `v` in a row, with `sep` between each two.
pub fn join(v: &[String], sep: &str) -> (out: String)
    ensures
        out@ == joined(texts(v@), sep@),
{
    let mut out = String::new();
    let mut i: usize = 0;
    let ghost parts = texts(v@);
    assert(parts.take(0) =~= Seq::<Seq<char>>::empty());
    while i < v.len()
        invariant
            i <= v.len(),
            parts == texts(v@),
            out@ == joined(parts.take(i as int), sep@),
        decreases v.len() - i,
    {
        let ghost now = parts.take(i + 1);
        assert(now.drop_last() == parts.take(i as int));
        assert(now.last() == v@[i as int]@);
        if i > 0 {
            out.append(sep);
        }
        out.append(v[i].as_str());
        assert(out@ =~= joined(now, sep@));
        i = i + 1;
    }
    assert(parts.take(v@.len() as int) == parts);
    out
}

/// `s` without the whitespace at its start.
pub open spec fn trimmed_start(s: Seq<char>) -> Seq<char>
    decreases s.len(),
{
    if s.len() > 0 && is_whitespace(s.first()) {
        trimmed_start(s.drop_first())
    } else {
        s
    }
}

/// `s` without the whitespace at its end.
pub open spec fn trimmed_end(s: Seq<char>) -> Seq<char>
    decreases s.len(),
{
    if s.len() > 0 && is_whitespace(s.last()) {
        trimmed_end(s.drop_last())
    } else {
        s
    }
}

/// `s` without the whitespace at its start and at its end.
pub open spec fn trimmed(s: Seq<char>) -> Seq<char> {
    trimmed_end(trimmed_start(s))
}

/// Where the first `n` characters of `s` are whitespace and the next one
/// is not, trimming the start leaves what follows the first `n`.
pub proof fn lemma_trimmed_start(s: Seq<char>, n: int)
    requires
        0 <= n <= s.len(),
        forall|k: int| 0 <= k < n ==> is_whitespace(#[trigger] s[k]),
        n < s.len() ==> !is_whitespace(s[n]),
    ensures
        trimmed_start(s) == s.skip(n),
    decreases n,
{
    if n == 0 {
        assert(s.skip(0) == s);
    } else {
        let rest = s.drop_first();
        assert forall|k: int| 0 <= k < n - 1 implies is_whitespace(#[trigger] rest[k]) by {
            assert(rest[k] == s[k + 1]);
        }
        lemma_trimmed_start(rest, n - 1);
        assert(rest.skip(n - 1) == s.skip(n));
    }
}

/// Where all characters of `s` from position `n` on are whitespace and
/// the one before is not, trimming the end leaves the first `n`.
pub proof fn lemma_trimmed_end(s: Seq<char>, n: int)
    requires
        0 <= n <= s.len(),
        forall|k: int| n <= k < s.len() ==> is_whitespace(#[trigger] s[k]),
        0 < n ==> !is_whitespace(s[n - 1]),
    ensures
        trimmed_end(s) == s.take(n),
    decreases s.len() - n,
{
    if n == s.len() {
        assert(s.take(n) == s);
    } else {
        let rest = s.drop_last();
        lemma_trimmed_end(rest, n);
        assert(rest.take(n) == s.take(n));
    }
}

/// The number of whitespace characters at the start of `chars[..to]`.
fn whitespace_at_start(chars: &Vec<char>, to: usize) -> (n: usize)
    requires
        to <= chars.len(),
    ensures
        n <= to,
        forall|k: int| 0 <= k < n ==> is_whitespace(#[trigger] chars@[k]),
        n < to ==> !is_whitespace(chars@[n as int]),
{
    let mut n: usize = 0;
    while n < to && char_is_whitespace(chars[n])
        invariant
            n <= to <= chars.len(),
            forall|k: int| 0 <= k < n ==> is_whitespace(#[trigger] chars@[k]),
        decreases to - n,
    {
        n = n + 1;
    }
    n
}

/// The position behind the last character of `chars[from..]` that is no
/// whitespace.
fn end_without_whitespace(chars: &Vec<char>, from: usize) -> (n: usize)
    requires
        from <= chars.len(),
    ensures
        from <= n <= chars.len(),
        forall|k: int| n <= k < chars.len() ==> is_whitespace(#[trigger] chars@[k]),
        from < n ==> !is_whitespace(chars@[n - 1]),
{
    let mut n: usize = chars.len();
    while n > from && char_is_whitespace(chars[n - 1])
        invariant
            from <= n <= chars.len(),
            forall|k: int| n <= k < chars.len() ==> is_whitespace(#[trigger] chars@[k]),
        decreases n,
    {
        n = n - 1;
    }
    n
}

/// `s` without the whitespace at its start and at its end.
pub fn trim(s: &str) -> (out: String)
    ensures
        out@ == trimmed(s@),
{
    let chars = chars_of(s);
    let from = whitespace_at_start(&chars, chars.len());
    let to = end_without_whitespace(&chars, from);
    proof {
        lemma_trimmed_start(s@, from as int);
        let rest = s@.skip(from as int);
        assert forall|k: int| to - from <= k < rest.len() implies is_whitespace(
            #[trigger] rest[k],
        ) by {
            assert(rest[k] == s@[k + from]);
        }
        lemma_trimmed_end(rest, to - from);
        assert(rest.take(to - from) == s@.subrange(from as int, to as int));
    }
    string_of_range(&chars, from, to)
}

/// `s` without the whitespace at its start.
pub fn trim_start(s: &str) -> (out: String)
    ensures
        out@ == trimmed_start(s@),
{
    let chars = chars_of(s);
    let from = whitespace_at_start(&chars, chars.len());
    proof {
        lemma_trimmed_start(s@, from as int);
        assert(s@.skip(from as int) == s@.subrange(from as int, s@.len() as int));
    }
    string_of_range(&chars, from, chars.len())
}

/// `s` without the whitespace at its end.
pub fn trim_end(s: &str) -> (out: String)
    ensures
        out@ == trimmed_end(s@),
{
    let chars = chars_of(s);
    let to = end_without_whitespace(&chars, 0);
    proof {
        lemma_trimmed_end(s@, to as int);
        assert(s@.take(to as int) == s@.subrange(0, to as int));
    }
    string_of_range(&chars, 0, to)
}

/// Whether `s` begins with `prefix`.
pub fn starts_with(s: &str, prefix: &str) -> (r: bool)
    ensures
        r == occurs_at(s@, prefix@, 0),
{
    let chars = chars_of(s);
    let wanted = chars_of(prefix);
    stands_at(&chars, &wanted, 0)
}

/// Whether `s` ends with `suffix`.
pub fn ends_with(s: &str, suffix: &str) -> (r: bool)
    ensures
        r == occurs_at(s@, suffix@, s@.len() - suffix@.len()),
{
    let chars = chars_of(s);
    let wanted = chars_of(suffix);
    if wanted.len() > chars.len() {
        false
    } else {
        stands_at(&chars, &wanted, chars.len() - wanted.len())
    }
}

/// Whether `sub` stands somewhere in `s`.
pub fn contains(s: &str, sub: &str) -> (r: bool)
    ensures
        r == occurs_in(s@, sub@),
{
    let chars = chars_of(s);
    let wanted = chars_of(sub);
    contains_chars(&chars, &wanted)
}

/// `s` without `prefix` at its start; `s` itself where it does not begin
/// with `prefix`.
pub fn strip_prefix(s: &str, prefix: &str) -> (out: String)
    ensures
        out@ == if occurs_at(s@, prefix@, 0) {
            s@.skip(prefix@.len() as int)
        } else {
            s@
        },
{
    let chars = chars_of(s);
    let wanted = chars_of(prefix);
    if stands_at(&chars, &wanted, 0) {
        assert(s@.skip(prefix@.len() as int) == s@.subrange(
            prefix@.len() as int,
            s@.len() as int,
        ));
        string_of_range(&chars, wanted.len(), chars.len())
    } else {
        String::from_str(s)
    }
}

/// `s` without `suffix` at its end; `s` itself where it does not end with
/// `suffix`.
pub fn strip_suffix(s: &str, suffix: &str) -> (out: String)
    ensures
        out@ == if occurs_at(s@, suffix@, s@.len() - suffix@.len()) {
            s@.take(s@.len() - suffix@.len())
        } else {
            s@
        },
{
    let chars = chars_of(s);
    let wanted = chars_of(suffix);
    if wanted.len() <= chars.len() && stands_at(&chars, &wanted, chars.len() - wanted.len()) {
        assert(s@.take(s@.len() - suffix@.len()) == s@.subrange(0, s@.len() - suffix@.len()));
        string_of_range(&chars, 0, chars.len() - wanted.len())
    } else {
        String::from_str(s)
    }
}

/// The characters of `s`, each as a string of its own.
pub fn chars(s: &str) -> (out: Vec<String>)
    ensures
        out@.len() == s@.len(),
        forall|i: int| 0 <= i < s@.len() ==> (#[trigger] out@[i])@ == seq![s@[i]],
{
    let all = chars_of(s);
    let mut out: Vec<String> = Vec::new();
    let mut i: usize = 0;
    while i < all.len()
        invariant
            i <= all.len(),
            all@ == s@,
            out@.len() == i,
            forall|k: int| 0 <= k < i ==> (#[trigger] out@[k])@ == seq![s@[k]],
        decreases all.len() - i,
    {
        let mut one = String::new();
        push_char(&mut one, all[i]);
        assert(one@ =~= seq![s@[i as int]]);
        out.push(one);
        i = i + 1;
    }
    out
}

/// `s`, `n` times in a row. A count below zero is admitted for the empty
/// string only.
pub fn repeat(s: &str, n: i32) -> (out: String)
    requires
        n >= 0 || s@.len() == 0,
    ensures
        out@ == repeat_text(
            s@,
            if n >= 0 {
                n as nat
            } else {
                0
            },
        ),
{
    let mut out = String::new();
    if n <= 0 {
        return out;
    }
    let mut i: i32 = 0;
    while i < n
        invariant
            0 <= i <= n,
            out@ == repeat_text(s@, i as nat),
        decreases n - i,
    {
        out.append(s);
        i = i + 1;
    }
    out
}

/// Whether `s` holds no character.
pub fn is_empty(s: &str) -> (r: bool)
    ensures
        r == (s@.len() == 0),
{
    s.is_empty()
}

/// Whether `s` holds ASCII digits only; so does the empty string.
pub fn is_digit(s: &str) -> (r: bool)
    ensures
        r == all_in_class(s@, CharClass::AsciiDigit),
{
    every_char_in_class(s, CharClass::AsciiDigit)
}

/// Whether `s` holds letters only; so does the empty string.
pub fn is_alpha(s: &str) -> (r: bool)
    ensures
        r == all_in_class(s@, CharClass::Alphabetic),
{
    every_char_in_class(s, CharClass::Alphabetic)
}

/// Whether `s` holds letters and numbers only; so does the empty string.
pub fn is_alnum(s: &str) -> (r: bool)
    ensures
        r == all_in_class(s@, CharClass::Alphanumeric),
{
    every_char_in_class(s, CharClass::Alphanumeric)
}

/// Whether `s` holds upper-case letters only; so does the empty string.
pub fn is_upper(s: &str) -> (r: bool)
    ensures
        r == all_in_class(s@, CharClass::Uppercase),
{
    every_char_in_class(s, CharClass::Uppercase)
}

/// Whether `s` holds lower-case letters only; so does the empty string.
pub fn is_lower(s: &str) -> (r: bool)
    ensures
        r == all_in_class(s@, CharClass::Lowercase),
{
    every_char_in_class(s, CharClass::Lowercase)
}

/// The position that `char_at` reads: a negative index counts from the
/// end, and not further back than to the first character.
pub open spec fn char_position(len: int, i: int) -> int {
    if i >= 0 {
        i
    } else if len + i < 0 {
        0
    } else {
        len + i
    }
}

/// The character of `s` at position `i`, as a string; the empty string
/// where `s` has no character there. A negative `i` counts from the end.
pub fn char_at(s: &str, i: i32) -> (out: String)
    ensures
        out@ == if char_position(s@.len() as int, i as int) < s@.len() {
            seq![s@[char_position(s@.len() as int, i as int)]]
        } else {
            Seq::<char>::empty()
        },
{
    let all = chars_of(s);
    let len: usize = all.len();
    let at: usize = if i >= 0 {
        i as usize
    } else {
        let back: usize = (-(i as i64)) as usize;
        if back > len {
            0
        } else {
            len - back
        }
    };
    let mut out = String::new();
    if at < len {
        push_char(&mut out, all[at]);
        assert(out@ =~= seq![s@[at as int]]);
    }
    out
}

/// `at` is the first position at which `needle` stands in `haystack`.
pub open spec fn is_first_occurrence<T>(haystack: Seq<T>, needle: Seq<T>, at: int) -> bool {
    &&& occurs_at(haystack, needle, at)
    &&& forall|before: int| 0 <= before < at ==> !occurs_at(haystack, needle, before)
}

/// Whether the bytes of `needle` stand in `haystack` at position `at`.
fn bytes_stand_at(haystack: &[u8], needle: &[u8], at: usize) -> (r: bool)
    requires
        at + needle@.len() <= haystack@.len(),
    ensures
        r == occurs_at(haystack@, needle@, at as int),
{
    let mut k: usize = 0;
    let total: usize = haystack.len();
    while k < needle.len()
        invariant
            k <= needle@.len(),
            at + needle@.len() <= haystack@.len(),
            total == haystack@.len(),
            forall|j: int| 0 <= j < k ==> haystack@[at + j] == needle@[j],
        decreases needle.len() - k,
    {
        if haystack[at + k] != needle[k] {
            assert(haystack@.subrange(at as int, at + needle@.len())[k as int] != needle@[k as int]);
            return false;
        }
        k = k + 1;
    }
    assert(haystack@.subrange(at as int, at + needle@.len()) =~= needle@);
    true
}

/// The first position at which the bytes of `needle` stand in `haystack`.
fn first_byte_occurrence(haystack: &[u8], needle: &[u8]) -> (r: Option<usize>)
    ensures
        match r {
            Some(at) => is_first_occurrence(haystack@, needle@, at as int),
            None => !occurs_in(haystack@, needle@),
        },
{
    if needle.len() > haystack.len() {
        return None;
    }
    let last: usize = haystack.len() - needle.len();
    let mut at: usize = 0;
    loop
        invariant
            last == haystack@.len() - needle@.len(),
            needle@.len() <= haystack@.len(),
            at <= last,
            forall|j: int| 0 <= j < at ==> !occurs_at(haystack@, needle@, j),
        decreases last - at,
    {
        if bytes_stand_at(haystack, needle, at) {
            return Some(at);
        }
        if at == last {
            return None;
        }
        at = at + 1;
    }
}

/// The byte offset in `s` at which `sub` stands first, or `-1` where it
/// stands nowhere in `s`.
pub fn find(s: &str, sub: &str) -> (r: i32)
    ensures
        occurs_in(encode_utf8(s@), encode_utf8(sub@)) ==> exists|at: int|
            #[trigger] is_first_occurrence(encode_utf8(s@), encode_utf8(sub@), at) && r
                == at as i32,
        !occurs_in(encode_utf8(s@), encode_utf8(sub@)) ==> r == -1,
{
    match first_byte_occurrence(s.as_bytes(), sub.as_bytes()) {
        Some(at) => {
            assert(is_first_occurrence(encode_utf8(s@), encode_utf8(sub@), at as int));
            #[verifier::truncate]
            (at as i32)
        },
        None => -1,
    }
}

/// The byte offset that a bound of `substr` stands for: a negative bound
/// counts from the end, and each bound is kept inside the string.
pub open spec fn substr_bound(len: int, bound: int) -> int {
    if bound < 0 {
        if len + bound < 0 {
            0
        } else {
            len + bound
        }
    } else if bound > len {
        len
    } else {
        bound
    }
}

/// What `substr` returns: the characters between the two byte offsets
/// that the bounds stand for; nothing where the offsets are out of order
/// or one of them lies inside the encoding of a character.
pub open spec fn substring(text: Seq<char>, start: int, end: int) -> Seq<char> {
    let from = substr_bound(byte_len(text), start);
    let to = substr_bound(byte_len(text), end);
    if from <= to && is_boundary(text, from) && is_boundary(text, to) {
        byte_range(text, from, to)
    } else {
        Seq::empty()
    }
}

/// The byte offset that a bound of `substr` stands for, computed.
fn substr_offset(len: usize, bound: i32) -> (r: usize)
    ensures
        r == substr_bound(len as int, bound as int),
{
    if bound < 0 {
        let back: usize = (-(bound as i64)) as usize;
        if back > len {
            0
        } else {
            len - back
        }
    } else if bound as usize > len {
        len
    } else {
        bound as usize
    }
}

/// The part of `s` between the byte offsets `start` and `end`. A negative
/// offset counts from the end, and both are kept inside the string. The
/// result is empty where `start` lies behind `end`, or where one of them
/// lies inside the encoding of a character.
pub fn substr(s: &str, start: i32, end: i32) -> (out: String)
    ensures
        out@ == substring(s@, start as int, end as int),
{
    let len: usize = s.as_bytes().len();
    let from = substr_offset(len, start);
    let to = substr_offset(len, end);
    if from <= to && s.is_char_boundary(from) && s.is_char_boundary(to) {
        proof {
            vstd::utf8::encode_utf8_valid_utf8(s@);
            lemma_boundary_in_prefix(encode_utf8(s@), from as int, to as int);
        }
        let (head, _) = s.split_at(to);
        let (_, part) = head.split_at(from);
        proof {
            vstd::utf8::encode_utf8_decode_utf8(part@);
            assert(part.spec_bytes() == encode_utf8(s@).subrange(from as int, to as int));
        }
        String::from_str(part)
    } else {
        String::new()
    }
}

/// How many bytes `pad_left` and `pad_right` add to `s` to fill `width`.
pub open spec fn padding_needed(s: Seq<char>, width: int) -> int {
    if byte_len(s) >= width {
        0
    } else {
        width - byte_len(s)
    }
}

/// The first `need` bytes of `fill`, repeated without end.
pub open spec fn padding(fill: Seq<char>, need: int) -> Seq<char> {
    repeat_text(fill, (need / byte_len(fill)) as nat) + byte_range(
        fill,
        0,
        need % byte_len(fill),
    )
}

/// A string can be padded to `width` bytes with `fill`: the width is not
/// negative, and where bytes are to be added, `fill` is not empty and the
/// last copy of it is cut between two characters.
pub open spec fn can_pad(s: Seq<char>, width: int, fill: Seq<char>) -> bool {
    &&& width >= 0
    &&& padding_needed(s, width) > 0 ==> byte_len(fill) > 0 && is_boundary(
        fill,
        padding_needed(s, width) % byte_len(fill),
    )
}

/// Whether a string can be padded to `width` bytes with `fill`.
pub fn check_can_pad(s: &str, width: i32, fill: &str) -> (r: bool)
    ensures
        r == can_pad(s@, width as int, fill@),
{
    if width < 0 {
        return false;
    }
    let len: usize = s.as_bytes().len();
    let fill_len: usize = fill.as_bytes().len();
    if len >= width as usize {
        return true;
    }
    let need: usize = width as usize - len;
    fill_len > 0 && fill.is_char_boundary(need % fill_len)
}

/// The first `need` bytes of `fill`, repeated without end, computed.
fn make_padding(fill: &str, need: usize) -> (out: String)
    requires
        byte_len(fill@) > 0,
        is_boundary(fill@, need as int % byte_len(fill@)),
    ensures
        out@ == padding(fill@, need as int),
{
    let fill_len: usize = fill.as_bytes().len();
    let whole: usize = need / fill_len;
    let cut: usize = need % fill_len;
    let mut out = String::new();
    let mut i: usize = 0;
    while i < whole
        invariant
            i <= whole,
            out@ == repeat_text(fill@, i as nat),
        decreases whole - i,
    {
        out.append(fill);
        i = i + 1;
    }
    let (head, _) = fill.split_at(cut);
    proof {
        vstd::utf8::encode_utf8_decode_utf8(head@);
    }
    out.append(head);
    out
}

/// `s`, filled up at its start with copies of `fill` to `width` bytes;
/// `s` itself where it has `width` bytes or more.
pub fn pad_left(s: &str, width: i32, fill: &str) -> (out: String)
    requires
        can_pad(s@, width as int, fill@),
    ensures
        out@ == if padding_needed(s@, width as int) > 0 {
            padding(fill@, padding_needed(s@, width as int)) + s@
        } else {
            s@
        },
{
    let len: usize = s.as_bytes().len();
    let w: usize = width as usize;
    if len >= w {
        return String::from_str(s);
    }
    let mut out = make_padding(fill, w - len);
    out.append(s);
    out
}

/// `s`, filled up at its end with copies of `fill` to `width` bytes; `s`
/// itself where it has `width` bytes or more.
pub fn pad_right(s: &str, width: i32, fill: &str) -> (out: String)
    requires
        can_pad(s@, width as int, fill@),
    ensures
        out@ == if padding_needed(s@, width as int) > 0 {
            s@ + padding(fill@, padding_needed(s@, width as int))
        } else {
            s@
        },
{
    let len: usize = s.as_bytes().len();
    let w: usize = width as usize;
    if len >= w {
        return String::from_str(s);
    }
    let pad = make_padding(fill, w - len);
    let mut out = String::from_str(s);
    out.append(pad.as_str());
    out
}

/// The upper-case form of a text: what `str::to_uppercase` returns.
pub uninterp spec fn uppercase_of(s: Seq<char>) -> Seq<char>;

/// The lower-case form of a text: what `str::to_lowercase` returns.
pub uninterp spec fn lowercase_of(s: Seq<char>) -> Seq<char>;

/// `str::to_uppercase`: the text with each character replaced by its
/// upper-case form, which may be more than one character.
#[verifier::external_body]
fn uppercase(s: &str) -> (out: String)
    ensures
        out@ == uppercase_of(s@),
{
    s.to_uppercase()
}

/// `str::to_lowercase`: the text with each character replaced by its
/// lower-case form, which may depend on where the character stands.
#[verifier::external_body]
fn lowercase(s: &str) -> (out: String)
    ensures
        out@ == lowercase_of(s@),
{
    s.to_lowercase()
}

/// `s` in upper case.
pub fn to_upper(s: &str) -> (out: String)
    ensures
        out@ == uppercase_of(s@),
{
    uppercase(s)
}

/// `s` in lower case.
pub fn to_lower(s: &str) -> (out: String)
    ensures
        out@ == lowercase_of(s@),
{
    lowercase(s)
}

/// The pieces of `s` from position `start` on, where the scan for the
/// separator has reached position `at`: the scan goes from left to right,
/// and where the separator stands, a piece ends and the next one begins
/// behind the separator.
pub open spec fn pieces_from(s: Seq<char>, sep: Seq<char>, start: int, at: int) -> Seq<Seq<char>>
    decreases s.len() - at,
{
    if sep.len() == 0 || at < 0 || at + sep.len() > s.len() {
        seq![s.skip(start)]
    } else if occurs_at(s, sep, at) {
        seq![s.subrange(start, at)] + pieces_from(s, sep, at + sep.len(), at + sep.len())
    } else {
        pieces_from(s, sep, start, at + 1)
    }
}

/// The pieces that the separator cuts `s` into. An empty separator stands
/// before, between and behind all characters: it cuts off each character,
/// and an empty piece at either end.
pub open spec fn split_pieces(s: Seq<char>, sep: Seq<char>) -> Seq<Seq<char>> {
    if sep.len() == 0 {
        seq![Seq::<char>::empty()] + Seq::new(s.len(), |i: int| seq![s[i]]) + seq![
            Seq::<char>::empty(),
        ]
    } else {
        pieces_from(s, sep, 0, 0)
    }
}

/// The pieces that `sep` cuts `s` into.
pub fn split(s: &str, sep: &str) -> (out: Vec<String>)
    ensures
        texts(out@) == split_pieces(s@, sep@),
{
    let all = chars_of(s);
    let cut = chars_of(sep);
    let mut out: Vec<String> = Vec::new();
    if cut.len() == 0 {
        out.push(String::new());
        let mut i: usize = 0;
        while i < all.len()
            invariant
                i <= all.len(),
                all@ == s@,
                texts(out@) == seq![Seq::<char>::empty()] + Seq::new(i as nat, |k: int| seq![s@[k]]),
            decreases all.len() - i,
        {
            let mut one = String::new();
            push_char(&mut one, all[i]);
            assert(one@ =~= seq![s@[i as int]]);
            let ghost before = out@;
            out.push(one);
            assert(texts(out@) =~= texts(before).push(one@));
            assert(texts(out@) =~= seq![Seq::<char>::empty()] + Seq::new(
                (i + 1) as nat,
                |k: int| seq![s@[k]],
            ));
            i = i + 1;
        }
        let ghost before = out@;
        out.push(String::new());
        assert(texts(out@) =~= texts(before).push(Seq::<char>::empty()));
        assert(texts(out@) =~= split_pieces(s@, sep@));
        return out;
    }
    let mut start: usize = 0;
    let mut at: usize = 0;
    assert(texts(out@) =~= Seq::<Seq<char>>::empty());
    while at <= all.len() && cut.len() <= all.len() - at
        invariant
            all@ == s@,
            cut@ == sep@,
            cut@.len() > 0,
            start <= at,
            start <= all@.len(),
            texts(out@) + pieces_from(s@, sep@, start as int, at as int) == split_pieces(s@, sep@),
        decreases all.len() + 1 - at,
    {
        if stands_at(&all, &cut, at) {
            let piece = string_of_range(&all, start, at);
            let ghost before = out@;
            out.push(piece);
            assert(texts(out@) =~= texts(before).push(piece@));
            at = at + cut.len();
            assert(texts(out@) + pieces_from(s@, sep@, at as int, at as int) =~= texts(before)
                + pieces_from(s@, sep@, start as int, at - cut@.len()));
            start = at;
        } else {
            at = at + 1;
        }
    }
    let rest = string_of_range(&all, start, all.len());
    assert(s@.skip(start as int) == s@.subrange(start as int, s@.len() as int));
    let ghost before = out@;
    out.push(rest);
    assert(texts(out@) =~= texts(before).push(rest@));
    assert(texts(out@) =~= texts(before) + pieces_from(s@, sep@, start as int, at as int));
    out
}

/// `s` with `to` in place of `from`, wherever `from` stands in it: the
/// pieces that `from` cuts `s` into, with `to` between each two.
pub fn replace(s: &str, from: &str, to: &str) -> (out: String)
    ensures
        out@ == joined(split_pieces(s@, from@), to@),
{
    let pieces = split(s, from);
    join(pieces.as_slice(), to)
}

/// A line without the carriage return that may stand at its end.
pub open spec fn without_carriage_return(line: Seq<char>) -> Seq<char> {
    if line.len() > 0 && line.last() == '\r' {
        line.drop_last()
    } else {
        line
    }
}

/// The lines of `s` from position `start` on, where the scan for line
/// feeds has reached position `at`. A line ends with a line feed, or with
/// a carriage return and a line feed; what follows the last line feed is
/// a line, too, unless it is empty.
pub open spec fn lines_from(s: Seq<char>, start: int, at: int) -> Seq<Seq<char>>
    decreases s.len() - at,
{
    if at < 0 || at >= s.len() {
        if start < s.len() {
            seq![s.skip(start)]
        } else {
            Seq::empty()
        }
    } else if s[at] == '\n' {
        seq![without_carriage_return(s.subrange(start, at))] + lines_from(s, at + 1, at + 1)
    } else {
        lines_from(s, start, at + 1)
    }
}

/// The lines of `s`, without their line ends.
pub fn lines(s: &str) -> (out: Vec<String>)
    ensures
        texts(out@) == lines_from(s@, 0, 0),
{
    let all = chars_of(s);
    let mut out: Vec<String> = Vec::new();
    let mut start: usize = 0;
    let mut at: usize = 0;
    assert(texts(out@) =~= Seq::<Seq<char>>::empty());
    while at < all.len()
        invariant
            all@ == s@,
            start <= at <= all@.len(),
            texts(out@) + lines_from(s@, start as int, at as int) == lines_from(s@, 0, 0),
        decreases all.len() - at,
    {
        if all[at] == '\n' {
            let end: usize = if at > start && all[at - 1] == '\r' {
                at - 1
            } else {
                at
            };
            let line = string_of_range(&all, start, end);
            proof {
                let whole = s@.subrange(start as int, at as int);
                if at > start {
                    assert(whole.last() == s@[at - 1]);
                }
                assert(line@ =~= without_carriage_return(whole));
            }
            let ghost before = out@;
            out.push(line);
            assert(texts(out@) =~= texts(before).push(line@));
            assert(texts(out@) + lines_from(s@, at + 1, at + 1) =~= texts(before) + lines_from(
                s@,
                start as int,
                at as int,
            ));
            at = at + 1;
            start = at;
        } else {
            at = at + 1;
        }
    }
    if start < all.len() {
        let rest = string_of_range(&all, start, all.len());
        assert(s@.skip(start as int) == s@.subrange(start as int, s@.len() as int));
        let ghost before = out@;
        out.push(rest);
        assert(texts(out@) =~= texts(before).push(rest@));
        assert(texts(out@) =~= texts(before) + lines_from(s@, start as int, at as int));
    } else {
        assert(texts(out@) =~= texts(out@) + lines_from(s@, start as int, at as int));
    }
    out
}

/// The number that a row of digits spells.
pub open spec fn digits_value(digits: Seq<char>) -> int
    decreases digits.len(),
{
    if digits.len() == 0 {
        0
    } else {
        digits_value(digits.drop_last()) * 10 + (digits.last() as int - '0' as int)
    }
}

/// The digits of a numeral: what follows its sign, where it has one.
pub open spec fn numeral_digits(s: Seq<char>) -> Seq<char> {
    if s.len() > 0 && (s[0] == '-' || s[0] == '+') {
        s.drop_first()
    } else {
        s
    }
}

/// The number that a numeral spells: an optional sign `+` or `-`, then
/// one ASCII digit or more, and nothing else; `None` for every other
/// text.
pub open spec fn numeral_value(s: Seq<char>) -> Option<int> {
    let digits = numeral_digits(s);
    if digits.len() == 0 || !all_in_class(digits, CharClass::AsciiDigit) {
        None
    } else if s[0] == '-' {
        Some(-digits_value(digits))
    } else {
        Some(digits_value(digits))
    }
}

/// What `parse_int` returns for a text: the number that the text spells
/// once the whitespace around it is gone, and `0` where it spells none or
/// one that a 32-bit integer cannot hold.
pub open spec fn parsed_int(s: Seq<char>) -> int {
    match numeral_value(trimmed(s)) {
        Some(value) => if -0x8000_0000 <= value <= 0x7fff_ffff {
            value
        } else {
            0
        },
        None => 0,
    }
}

/// The value of a row of digits does not shrink when digits are added.
pub proof fn lemma_digits_value_grows(digits: Seq<char>, n: int)
    requires
        0 <= n <= digits.len(),
        all_in_class(digits, CharClass::AsciiDigit),
    ensures
        0 <= digits_value(digits.take(n)) <= digits_value(digits),
    decreases digits.len() - n,
{
    if n == digits.len() {
        assert(digits.take(n) == digits);
        lemma_digits_value_nonnegative(digits);
    } else {
        lemma_digits_value_grows(digits, n + 1);
        let longer = digits.take(n + 1);
        assert(longer.drop_last() == digits.take(n));
        assert(longer.last() == digits[n]);
        lemma_digits_value_nonnegative(digits.take(n));
    }
}

/// The value of a row of digits is not negative.
pub proof fn lemma_digits_value_nonnegative(digits: Seq<char>)
    requires
        all_in_class(digits, CharClass::AsciiDigit),
    ensures
        0 <= digits_value(digits),
    decreases digits.len(),
{
    if digits.len() > 0 {
        assert(digits.drop_last() =~= digits.take(digits.len() - 1));
        lemma_digits_value_nonnegative(digits.drop_last());
    }
}

/// The number that `s` spells once the whitespace around it is gone; `0`
/// where it spells none, or one that a 32-bit integer cannot hold.
pub fn parse_int(s: &str) -> (r: i32)
    ensures
        r == parsed_int(s@),
{
    let all = chars_of(s);
    let from = whitespace_at_start(&all, all.len());
    let to = end_without_whitespace(&all, from);
    let ghost text = s@.subrange(from as int, to as int);
    proof {
        lemma_trimmed_start(s@, from as int);
        let rest = s@.skip(from as int);
        assert forall|k: int| to - from <= k < rest.len() implies is_whitespace(
            #[trigger] rest[k],
        ) by {
            assert(rest[k] == s@[k + from]);
        }
        lemma_trimmed_end(rest, to - from);
        assert(rest.take(to - from) == text);
        assert(trimmed(s@) == text);
    }
    let negative: bool = from < to && all[from] == '-';
    let signed: bool = from < to && (all[from] == '-' || all[from] == '+');
    let first: usize = if signed {
        from + 1
    } else {
        from
    };
    let ghost digits = numeral_digits(text);
    assert(digits =~= s@.subrange(first as int, to as int));
    if first == to {
        return 0;
    }
    let mut value: i64 = 0;
    let mut i: usize = first;
    assert(digits.take(0) =~= Seq::<char>::empty());
    while i < to
        invariant
            first <= i <= to <= all.len(),
            first < to,
            all@ == s@,
            digits == s@.subrange(first as int, to as int),
            digits == numeral_digits(trimmed(s@)),
            all_in_class(digits.take(i - first), CharClass::AsciiDigit),
            value == digits_value(digits.take(i - first)),
            0 <= value <= 0x8000_0000,
        decreases to - i,
    {
        let c = all[i];
        let ghost seen = digits.take(i - first);
        let ghost next = digits.take(i - first + 1);
        assert(next.drop_last() == seen);
        assert(next.last() == c);
        if !('0' <= c && c <= '9') {
            assert(!all_in_class(digits, CharClass::AsciiDigit)) by {
                assert(digits[i - first] == c);
            }
            return 0;
        }
        let digit: i64 = (c as u32 - '0' as u32) as i64;
        value = value * 10 + digit;
        if value > 0x8000_0000 {
            proof {
                if all_in_class(digits, CharClass::AsciiDigit) {
                    lemma_digits_value_grows(digits, i - first + 1);
                }
            }
            return 0;
        }
        i = i + 1;
    }
    assert(digits.take(to - first) == digits);
    if negative {
        (-value) as i32
    } else if value > 0x7fff_ffff {
        0
    } else {
        value as i32
    }
}

} // verus!
