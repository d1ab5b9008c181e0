//! Pattern matching with a cache of compiled patterns.
//!
//! Patterns are compiled by the `regex` crate. A [`PatternCache`] keeps
//! each compiled pattern under its source text, so that a pattern is
//! compiled once however often it is used. The cache belongs to whoever
//! runs the program: it is handed to each call, and never shared behind
//! the caller's back.

use regex::Regex;
use vstd::hash_map::StringHashMap;
use vstd::prelude::*;
use vstd::string::StringExecFns;
use vstd::string::StringSliceAdditionalSpecFns;
use vstd::utf8::is_char_boundary;
use crate::text::byte_len;
use crate::text::byte_range;
use crate::text::is_boundary;
use crate::text::lemma_boundary_in_suffix;

verus! {

/// `regex::Regex`, a compiled pattern of the `regex` crate. Nothing is
/// known of what it holds.
#[verifier::external_type_specification]
#[verifier::external_body]
pub struct ExRegex(regex::Regex);

/// `regex::Error`, the reason why the `regex` crate refused a pattern.
/// Nothing is known of what it holds.
#[verifier::external_type_specification]
#[verifier::external_body]
pub struct ExRegexError(regex::Error);

/// The leftmost match of `pattern` in `haystack`, as the byte offsets in
/// the haystack at which it starts and ends: what `Regex::find` returns for
/// a pattern compiled by `Regex::new`.
pub uninterp spec fn leftmost_match(pattern: Seq<char>, haystack: Seq<char>) -> Option<
    (usize, usize),
>;

/// A compiled pattern, together with the text that it was compiled from.
/// It is cheap to clone, and a clone matches as the pattern itself does.
///
/// Only `compile` and `duplicate` make values of this type, so the engine
/// of each is the one that `Regex::new` made of its text.
pub struct CompiledPattern {
    source: String,
    engine: Regex,
}

impl View for CompiledPattern {
    type V = Seq<char>;

    /// The pattern text that this was compiled from.
    closed spec fn view(&self) -> Seq<char> {
        self.source@
    }
}

/// `Regex::new`: compiles `pattern` with the crate's default options. The
/// crate refuses patterns with a syntax error and patterns that compile to
/// more than its size limit; nothing is claimed about which patterns those
/// are. The compiled pattern is handed out together with its text.
#[verifier::external_body]
fn compile(pattern: &str) -> (r: Result<CompiledPattern, regex::Error>)
    ensures
        r matches Ok(compiled) ==> compiled@ == pattern@,
{
    match Regex::new(pattern) {
        Ok(engine) => Ok(CompiledPattern { source: pattern.to_string(), engine }),
        Err(e) => Err(e),
    }
}

/// `Regex::clone`: a second handle to the same compiled pattern, with a
/// copy of its text.
#[verifier::external_body]
fn duplicate(compiled: &CompiledPattern) -> (r: CompiledPattern)
    ensures
        r@ == compiled@,
{
    CompiledPattern { source: compiled.source.clone(), engine: compiled.engine.clone() }
}

/// `Regex::find`, with the match handed out as its two byte offsets
/// (`Match::start`, `Match::end`). What is found depends on the pattern
/// text and the haystack alone. The crate documents that the offsets are
/// in order, lie inside the haystack and fall on character boundaries.
#[verifier::external_body]
fn find_first(compiled: &CompiledPattern, haystack: &str) -> (r: Option<(usize, usize)>)
    ensures
        r == leftmost_match(compiled@, haystack@),
        r matches Some((start, end)) ==> {
            &&& start <= end <= haystack.spec_bytes().len()
            &&& is_char_boundary(haystack.spec_bytes(), start as int)
            &&& is_char_boundary(haystack.spec_bytes(), end as int)
        },
{
    match compiled.engine.find(haystack) {
        Some(m) => Some((m.start(), m.end())),
        None => None,
    }
}

/// `Regex::is_match`: whether the pattern matches anywhere in the
/// haystack, which the crate documents to be the case exactly when
/// `Regex::find` finds a match.
#[verifier::external_body]
fn matches_somewhere(compiled: &CompiledPattern, haystack: &str) -> (r: bool)
    ensures
        r == (leftmost_match(compiled@, haystack@) is Some),
{
    compiled.engine.is_match(haystack)
}

/// The message of a compile error (`regex::Error` as `Display` shows it).
#[verifier::external_body]
fn diagnostic_of(e: &regex::Error) -> (s: String) {
    e.to_string()
}

/// A pattern that could not be compiled.
#[derive(Debug, Clone, PartialEq, Eq)]
pub struct InvalidPattern {
    /// The pattern text as it was given.
    pub pattern: String,
    /// What the pattern compiler said about it.
    pub diagnostic: String,
}

/// What an anchored match at `pos` reports, given what the search in the
/// text from `pos` on (`haystack`) found: a match counts only where it
/// starts at once. Then the matched text and the offset of its end in the
/// whole text are reported; else no match, the empty text and `pos`
/// itself.
pub open spec fn anchored_outcome(haystack: Seq<char>, pos: i32, found: Option<(usize, usize)>) -> (
    bool,
    Seq<char>,
    i32,
) {
    match found {
        Some((start, end)) => if start == 0 {
            (true, byte_range(haystack, 0, end as int), (pos + end) as i32)
        } else {
            (false, Seq::empty(), pos)
        },
        None => (false, Seq::empty(), pos),
    }
}

/// What matching `pattern` at byte offset `pos` of `text` reports.
pub open spec fn match_at(pattern: Seq<char>, text: Seq<char>, pos: i32) -> (bool, Seq<char>, i32) {
    if is_boundary(text, pos as int) {
        let haystack = byte_range(text, pos as int, byte_len(text));
        anchored_outcome(haystack, pos, leftmost_match(pattern, haystack))
    } else {
        (false, Seq::empty(), pos)
    }
}

/// Whether `pattern` matches anywhere in `text`.
pub open spec fn search_anywhere(pattern: Seq<char>, text: Seq<char>) -> bool {
    leftmost_match(pattern, text) is Some
}

/// A report of a match at `pos` speaks of a part of `text`: where it
/// reports a match, the matched text is what stands in `text` between
/// `pos` and the end offset, and the end offset is `pos` plus the length
/// of the matched text in bytes.
pub open spec fn lies_in_text(text: Seq<char>, pos: i32, report: (bool, Seq<char>, i32)) -> bool {
    report.0 ==> {
        &&& pos <= report.2
        &&& is_boundary(text, report.2 as int)
        &&& report.1 == byte_range(text, pos as int, report.2 as int)
        &&& report.2 == pos + byte_len(report.1)
    }
}

/// The report of an anchored match at `pos`, from what the search in the
/// text from `pos` on found. A match that starts at once must end inside
/// the haystack, between two characters.
pub fn report_anchored(haystack: &str, pos: i32, found: Option<(usize, usize)>) -> (r: (
    bool,
    String,
    i32,
))
    requires
        found matches Some((start, end)) ==> (start == 0 ==> is_boundary(haystack@, end as int)),
    ensures
        (r.0, r.1@, r.2) == anchored_outcome(haystack@, pos, found),
        r.0 ==> (found matches Some((start, end)) && start == 0 && vstd::utf8::encode_utf8(r.1@)
            == vstd::utf8::encode_utf8(haystack@).subrange(0, end as int)),
{
    match found {
        Some((start, end)) => {
            if start == 0 {
                let (matched, _) = haystack.split_at(end);
                proof {
                    vstd::utf8::encode_utf8_decode_utf8(matched@);
                }
                let stop: i128 = pos as i128 + end as i128;
                (true, String::from_str(matched), #[verifier::truncate] (stop as i32))
            } else {
                (false, String::new(), pos)
            }
        },
        None => (false, String::new(), pos),
    }
}

/// Whether a match in `text` can begin at byte offset `pos`.
pub fn check_match_position(text: &str, pos: i32) -> (r: bool)
    ensures
        r == is_boundary(text@, pos as int),
        byte_len(text@) <= usize::MAX,
{
    let len: usize = text.as_bytes().len();
    0 <= pos && pos as usize <= len && text.is_char_boundary(pos as usize)
}

impl Clone for CompiledPattern {
    fn clone(&self) -> (r: Self)
        ensures
            r@ == self@,
    {
        duplicate(self)
    }
}

impl CompiledPattern {
    /// The pattern text that this was compiled from.
    pub fn source(&self) -> (s: String)
        ensures
            s@ == self@,
    {
        String::from_str(self.source.as_str())
    }

    /// Matches the pattern at byte offset `pos` of `text`: the match must
    /// begin exactly at `pos`, and may end anywhere. Where `pos` lies
    /// outside the text, or inside the encoding of a character, nothing
    /// matches.
    pub fn match_at(&self, text: &str, pos: i32) -> (r: (bool, String, i32))
        ensures
            (r.0, r.1@, r.2) == match_at(self@, text@, pos),
            byte_len(text@) <= i32::MAX ==> lies_in_text(text@, pos, (r.0, r.1@, r.2)),
    {
        if !check_match_position(text, pos) {
            return (false, String::new(), pos);
        }
        let (_, haystack) = text.split_at(pos as usize);
        proof {
            vstd::utf8::encode_utf8_decode_utf8(haystack@);
        }
        let found = find_first(self, haystack);
        let r = report_anchored(haystack, pos, found);
        proof {
            if r.0 {
                let bytes = vstd::utf8::encode_utf8(text@);
                let end = match found {
                    Some((_, end)) => end as int,
                    None => 0,
                };
                vstd::utf8::encode_utf8_valid_utf8(text@);
                lemma_boundary_in_suffix(bytes, pos as int, end);
                assert(vstd::utf8::encode_utf8(haystack@).subrange(0, end) == bytes.subrange(
                    pos as int,
                    pos + end,
                ));
            }
        }
        r
    }

    /// Whether the pattern matches anywhere in `text`.
    pub fn is_match(&self, text: &str) -> (r: bool)
        ensures
            r == search_anywhere(self@, text@),
    {
        matches_somewhere(self, text)
    }
}

/// The compiled patterns of one execution context, each kept under its
/// source text. The cache only grows, and holds one entry at most for a
/// pattern text.
pub struct PatternCache {
    entries: StringHashMap<CompiledPattern>,
}

impl PatternCache {
    #[verifier::type_invariant]
    spec fn keyed_by_source(self) -> bool {
        &&& self.entries@.dom().finite()
        &&& forall|text: Seq<char>| #[trigger]
            self.entries@.contains_key(text) ==> self.entries@[text]@ == text
    }

    /// The pattern texts that the cache holds an entry for.
    pub closed spec fn patterns(&self) -> Set<Seq<char>> {
        self.entries@.dom()
    }

    /// Whether the cache holds an entry for `pattern`.
    pub open spec fn holds(&self, pattern: Seq<char>) -> bool {
        self.patterns().contains(pattern)
    }

    /// An empty cache.
    pub fn new() -> (cache: PatternCache)
        ensures
            cache.patterns() == Set::<Seq<char>>::empty(),
    {
        let cache = PatternCache { entries: StringHashMap::new() };
        assert(cache.patterns() =~= Set::<Seq<char>>::empty());
        cache
    }

    /// The number of entries, which is the number of pattern texts that
    /// the cache holds.
    pub fn len(&self) -> (n: usize)
        ensures
            n == self.patterns().len(),
            self.patterns().finite(),
    {
        proof {
            use_type_invariant(self);
        }
        self.entries.len()
    }

    /// Whether the cache holds an entry for `pattern`, computed.
    pub fn contains(&self, pattern: &str) -> (r: bool)
        ensures
            r == self.holds(pattern@),
    {
        self.entries.contains_key(pattern)
    }

    /// Adds a compiled pattern whose text the cache does not hold yet.
    fn insert(&mut self, compiled: CompiledPattern)
        requires
            !old(self).holds(compiled@),
        ensures
            final(self).patterns() == old(self).patterns().insert(compiled@),
    {
        proof {
            use_type_invariant(&*self);
        }
        let key = String::from_str(compiled.source.as_str());
        let mut entries: StringHashMap<CompiledPattern> = StringHashMap::new();
        std::mem::swap(&mut self.entries, &mut entries);
        entries.insert(key, compiled);
        std::mem::swap(&mut self.entries, &mut entries);
        assert(self.patterns() =~= old(self).patterns().insert(compiled@));
    }

    /// A second handle to the entry for `pattern`, if there is one.
    fn lookup(&self, pattern: &str) -> (r: Option<CompiledPattern>)
        ensures
            match r {
                Some(compiled) => self.holds(pattern@) && compiled@ == pattern@,
                None => !self.holds(pattern@),
            },
    {
        proof {
            use_type_invariant(self);
        }
        match self.entries.get(pattern) {
            Some(compiled) => Some(duplicate(compiled)),
            None => None,
        }
    }
}

/// Takes in what the compiler made of `pattern`, a pattern that the cache
/// does not hold: the compiled pattern, or the compiler's message.
///
/// A compiled pattern is added to the cache and served. A message becomes
/// an [`InvalidPattern`] that carries the pattern text and the message,
/// and the cache stays as it was.
pub fn admit_compiled(
    cache: &mut PatternCache,
    pattern: &str,
    outcome: Result<CompiledPattern, String>,
) -> (r: Result<CompiledPattern, InvalidPattern>)
    requires
        !old(cache).holds(pattern@),
        outcome matches Ok(compiled) ==> compiled@ == pattern@,
    ensures
        r is Ok <==> outcome is Ok,
        match r {
            Ok(compiled) => {
                &&& compiled@ == pattern@
                &&& final(cache).patterns() == old(cache).patterns().insert(pattern@)
            },
            Err(e) => {
                &&& e.pattern@ == pattern@
                &&& outcome matches Err(message) && e.diagnostic@ == message@
                &&& final(cache).patterns() == old(cache).patterns()
            },
        },
        final(cache).patterns().finite(),
{
    proof {
        use_type_invariant(&*cache);
    }
    match outcome {
        Ok(fresh) => {
            let compiled = duplicate(&fresh);
            cache.insert(fresh);
            proof {
                use_type_invariant(&*cache);
            }
            Ok(compiled)
        },
        Err(message) => Err(InvalidPattern { pattern: String::from_str(pattern), diagnostic: message }),
    }
}

/// The compiled form of `pattern`: from the cache where the cache holds
/// it, else compiled now and, by [`admit_compiled`], added to the cache.
///
/// A pattern that the cache holds is always served, and leaves the cache
/// as it was. Whether another pattern is served is the compiler's to say:
/// one that it compiles is served and added to the cache, one that it
/// refuses is reported with its text and the compiler's message, and
/// leaves the cache as it was.
pub fn get_or_compile(cache: &mut PatternCache, pattern: &str) -> (r: Result<
    CompiledPattern,
    InvalidPattern,
>)
    ensures
        old(cache).holds(pattern@) ==> r is Ok,
        match r {
            Ok(compiled) => {
                &&& compiled@ == pattern@
                &&& final(cache).holds(pattern@)
                &&& final(cache).patterns() == if old(cache).holds(pattern@) {
                    old(cache).patterns()
                } else {
                    old(cache).patterns().insert(pattern@)
                }
            },
            Err(e) => {
                &&& e.pattern@ == pattern@
                &&& !old(cache).holds(pattern@)
                &&& final(cache).patterns() == old(cache).patterns()
            },
        },
        final(cache).patterns().finite(),
{
    proof {
        use_type_invariant(&*cache);
    }
    match cache.lookup(pattern) {
        Some(compiled) => Ok(compiled),
        None => {
            let outcome: Result<CompiledPattern, String> = match compile(pattern) {
                Ok(fresh) => Ok(fresh),
                Err(e) => Err(diagnostic_of(&e)),
            };
            admit_compiled(cache, pattern, outcome)
        },
    }
}

/// Matches `pattern` at byte offset `pos` of `text`.
///
/// Reports `(matched, matched text, end offset)`: a match must begin
/// exactly at `pos` and may end anywhere; the end offset is `pos` plus the
/// length of the matched text in bytes. Without a match the report is
/// `(false, "", pos)`; so it is, before the pattern is even looked at,
/// where `pos` lies outside the text or inside the encoding of a character.
pub fn re_match(cache: &mut PatternCache, pattern: &str, text: &str, pos: i32) -> (r: Result<
    (bool, String, i32),
    InvalidPattern,
>)
    ensures
        !is_boundary(text@, pos as int) || old(cache).holds(pattern@) ==> r is Ok,
        match r {
            Ok(report) => {
                &&& (report.0, report.1@, report.2) == match_at(pattern@, text@, pos)
                &&& byte_len(text@) <= i32::MAX ==> lies_in_text(
                    text@,
                    pos,
                    (report.0, report.1@, report.2),
                )
                &&& final(cache).patterns() == if !is_boundary(text@, pos as int) || old(
                    cache,
                ).holds(pattern@) {
                    old(cache).patterns()
                } else {
                    old(cache).patterns().insert(pattern@)
                }
            },
            Err(e) => e.pattern@ == pattern@ && final(cache).patterns() == old(cache).patterns(),
        },
        final(cache).patterns().finite(),
{
    if !check_match_position(text, pos) {
        proof {
            use_type_invariant(&*cache);
        }
        return Ok((false, String::new(), pos));
    }
    match get_or_compile(cache, pattern) {
        Ok(compiled) => Ok(compiled.match_at(text, pos)),
        Err(e) => Err(e),
    }
}

/// Whether `pattern` matches anywhere in `text`.
pub fn re_is_match(cache: &mut PatternCache, pattern: &str, text: &str) -> (r: Result<
    bool,
    InvalidPattern,
>)
    ensures
        old(cache).holds(pattern@) ==> r is Ok,
        match r {
            Ok(found) => {
                &&& found == search_anywhere(pattern@, text@)
                &&& final(cache).patterns() == if old(cache).holds(pattern@) {
                    old(cache).patterns()
                } else {
                    old(cache).patterns().insert(pattern@)
                }
            },
            Err(e) => e.pattern@ == pattern@ && final(cache).patterns() == old(cache).patterns(),
        },
        final(cache).patterns().finite(),
{
    match get_or_compile(cache, pattern) {
        Ok(compiled) => Ok(compiled.is_match(text)),
        Err(e) => Err(e),
    }
}

/// Compiled patterns made from one pattern text match alike: what a
/// pattern reports depends on its text and on the input, not on which
/// compilation it came from nor on how often the cache was asked for it.
pub proof fn lemma_cache_transparent(
    first: CompiledPattern,
    second: CompiledPattern,
    text: Seq<char>,
    pos: i32,
)
    requires
        first@ == second@,
    ensures
        match_at(first@, text, pos) == match_at(second@, text, pos),
        search_anywhere(first@, text) == search_anywhere(second@, text),
{
}

} // verus!
