//! Indexing, slicing, concatenation and membership as the source language
//! defines them.

use std::collections::HashMap;
use std::collections::HashSet;
use vstd::hash_map::StringHashMap;
use vstd::prelude::*;
use vstd::std_specs::cmp::PartialEqSpec;
use vstd::std_specs::hash::*;
use crate::text::chars_of;
use crate::text::contains_chars;
use crate::text::occurs_in;
use crate::text::text_eq;

verus! {

/// The `end` offset that stands for "no end given".
pub const UNSPECIFIED_END: i64 = 0x7fff_ffff_ffff_ffff;

/// An offset brought into `0..=len`: a negative one counts from the end,
/// and what still lies outside is moved to the nearer bound.
pub open spec fn clamp_offset(len: int, offset: int) -> int {
    let shifted = if offset < 0 {
        len + offset
    } else {
        offset
    };
    if shifted < 0 {
        0
    } else if shifted > len {
        len
    } else {
        shifted
    }
}

/// How many of `lo`, `lo + stride`, `lo + 2 * stride`, ... lie below `hi`.
pub open spec fn stride_count(lo: int, hi: int, stride: int) -> nat {
    if lo < hi && stride > 0 {
        ((hi - lo - 1) / stride + 1) as nat
    } else {
        0
    }
}

/// The lower bound of the index range that a slice request covers.
pub open spec fn slice_lower(len: int, start: int, end: int, step: int) -> int {
    if step > 0 {
        clamp_offset(len, start)
    } else if end == UNSPECIFIED_END {
        0
    } else {
        clamp_offset(len, end)
    }
}

/// The upper bound (exclusive) of the index range that a slice request
/// covers.
pub open spec fn slice_upper(len: int, start: int, end: int, step: int) -> int {
    if step > 0 {
        clamp_offset(len, end)
    } else if start == 0 {
        len
    } else {
        clamp_offset(len, start)
    }
}

/// The indices that a slice request selects from a sequence of `len`
/// elements, in the order in which the elements are emitted.
///
/// A positive step walks up from the lower bound, a negative step walks
/// down from just below the upper bound, and a step of zero selects
/// nothing.
pub open spec fn slice_indices(len: int, start: int, end: int, step: int) -> Seq<int> {
    let lo = slice_lower(len, start, end, step);
    let hi = slice_upper(len, start, end, step);
    if step > 0 {
        Seq::new(stride_count(lo, hi, step), |k: int| lo + k * step)
    } else if step < 0 {
        Seq::new(stride_count(lo, hi, -step), |k: int| hi - 1 - k * (-step))
    } else {
        Seq::empty()
    }
}

/// The elements that a slice request selects from `s`.
pub open spec fn slice_of<T>(s: Seq<T>, start: int, end: int, step: int) -> Seq<T> {
    let picked = slice_indices(s.len() as int, start, end, step);
    Seq::new(picked.len(), |k: int| s[picked[k]])
}

/// `copy` holds, position by position, a clone of what `source` holds.
pub open spec fn clones_of<T: Clone>(copy: Seq<T>, source: Seq<T>) -> bool {
    &&& copy.len() == source.len()
    &&& forall|k: int| 0 <= k < source.len() ==> cloned(#[trigger] source[k], copy[k])
}

/// The `k`-th stride from `lo` stays below `hi` exactly for the first
/// `stride_count(lo, hi, stride)` values of `k`.
pub proof fn lemma_stride_count(lo: int, hi: int, stride: int, k: int)
    requires
        stride > 0,
        k >= 0,
    ensures
        lo + k * stride < hi <==> k < stride_count(lo, hi, stride),
{
    if lo < hi {
        let d = hi - lo - 1;
        let q = d / stride;
        assert(d == stride * q + d % stride && 0 <= d % stride < stride) by {
            vstd::arithmetic::div_mod::lemma_fundamental_div_mod(d, stride);
            vstd::arithmetic::div_mod::lemma_mod_bound(d, stride);
        }
        assert(q >= 0) by (nonlinear_arith)
            requires
                d == stride * q + d % stride,
                0 <= d % stride < stride,
                d >= 0,
                stride > 0,
        ;
        if k <= q {
            assert(k * stride <= q * stride) by (nonlinear_arith)
                requires
                    0 <= k <= q,
                    stride > 0,
            ;
            assert(q * stride == stride * q) by (nonlinear_arith);
        } else {
            assert(k * stride >= (q + 1) * stride) by (nonlinear_arith)
                requires
                    k >= q + 1,
                    stride > 0,
            ;
            assert((q + 1) * stride == stride * q + stride) by (nonlinear_arith);
        }
    } else {
        assert(k * stride >= 0) by (nonlinear_arith)
            requires
                k >= 0,
                stride > 0,
        ;
    }
}

/// Every index that a slice request selects lies inside the sequence.
pub proof fn lemma_slice_indices_in_bounds(len: int, start: int, end: int, step: int, k: int)
    requires
        len >= 0,
        0 <= k < slice_indices(len, start, end, step).len(),
    ensures
        0 <= slice_indices(len, start, end, step)[k] < len,
{
    let lo = slice_lower(len, start, end, step);
    let hi = slice_upper(len, start, end, step);
    if step > 0 {
        lemma_stride_count(lo, hi, step, k);
        assert(k * step >= 0) by (nonlinear_arith)
            requires
                k >= 0,
                step > 0,
        ;
    } else if step < 0 {
        lemma_stride_count(lo, hi, -step, k);
        assert(k * (-step) >= 0) by (nonlinear_arith)
            requires
                k >= 0,
                -step > 0,
        ;
    }
}

/// An offset brought into `0..=len`, computed.
fn clamp_to_len(len: i128, offset: i64) -> (r: i128)
    requires
        0 <= len <= usize::MAX,
    ensures
        r == clamp_offset(len as int, offset as int),
{
    let wide: i128 = offset as i128;
    let shifted: i128 = if wide < 0 {
        len + wide
    } else {
        wide
    };
    if shifted < 0 {
        0
    } else if shifted > len {
        len
    } else {
        shifted
    }
}

/// The slice `v[start:end:step]` of the source language.
///
/// Offsets may be negative (counted from the end) and are clamped to the
/// sequence; with a negative step an `end` of [`UNSPECIFIED_END`] means
/// "down to the first element" and a `start` of `0` means "from the last
/// element". A step of zero gives an empty result.
pub fn homun_slice<T: Clone>(v: &Vec<T>, start: i64, end: i64, step: i64) -> (out: Vec<T>)
    ensures
        clones_of(out@, slice_of(v@, start as int, end as int, step as int)),
{
    let len: i128 = v.len() as i128;
    let mut out: Vec<T> = Vec::new();
    if step == 0 {
        return out;
    }
    let stride: i128 = if step > 0 {
        step as i128
    } else {
        -(step as i128)
    };
    let lo: i128 = if step > 0 {
        clamp_to_len(len, start)
    } else if end == UNSPECIFIED_END {
        0
    } else {
        clamp_to_len(len, end)
    };
    let hi: i128 = if step > 0 {
        clamp_to_len(len, end)
    } else if start == 0 {
        len
    } else {
        clamp_to_len(len, start)
    };
    let ghost picked = slice_indices(len as int, start as int, end as int, step as int);
    let ghost wanted = slice_of(v@, start as int, end as int, step as int);
    let mut offset: i128 = lo;
    assert(offset == lo + out.len() * stride) by (nonlinear_arith)
        requires
            offset == lo,
            out.len() == 0,
    ;
    while offset < hi
        invariant
            len == v.len(),
            0 <= lo <= len,
            0 <= hi <= len,
            step != 0,
            stride > 0,
            stride == if step > 0 { step as int } else { -(step as int) },
            lo == slice_lower(len as int, start as int, end as int, step as int),
            hi == slice_upper(len as int, start as int, end as int, step as int),
            picked == slice_indices(len as int, start as int, end as int, step as int),
            wanted == slice_of(v@, start as int, end as int, step as int),
            lo <= offset,
            offset == lo + out.len() * stride,
            out.len() <= picked.len(),
            forall|k: int| 0 <= k < out.len() ==> cloned(#[trigger] wanted[k], out@[k]),
        decreases picked.len() - out.len(),
    {
        let ghost k = out.len() as int;
        proof {
            lemma_stride_count(lo as int, hi as int, stride as int, k);
            lemma_stride_count(lo as int, hi as int, stride as int, k + 1);
            assert((k + 1) * stride == k * stride + stride) by (nonlinear_arith);
            assert(k * stride >= 0) by (nonlinear_arith)
                requires
                    k >= 0,
                    stride > 0,
            ;
        }
        let at: usize = if step > 0 {
            offset as usize
        } else {
            (hi - 1 - (offset - lo)) as usize
        };
        assert(at == picked[k]);
        assert(wanted[k] == v@[at as int]);
        out.push(v[at].clone());
        offset = offset + stride;
    }
    proof {
        lemma_stride_count(lo as int, hi as int, stride as int, out.len() as int);
    }
    out
}

/// Why indexing gave no element.
#[derive(Debug, Clone, Copy, PartialEq, Eq)]
pub enum IndexError {
    /// The index, counted from the front, does not lie in `0..len`.
    /// `index` is the index after a negative one was counted from the end.
    IndexOutOfBounds { index: i64, len: usize },
    /// The mapping holds no entry under the key.
    KeyNotFound,
}

/// A sequence index counted from the front: a negative one counts from the
/// end.
pub open spec fn normalized_index(len: int, index: int) -> int {
    if index < 0 {
        len + index
    } else {
        index
    }
}

/// The element of `s` that `index` selects, if it selects one.
pub open spec fn element_at<T>(s: Seq<T>, index: int) -> Option<T> {
    let at = normalized_index(s.len() as int, index);
    if 0 <= at < s.len() {
        Some(s[at])
    } else {
        None
    }
}

/// Indexing as the source language writes it: `container[key]`.
pub trait HomunIndex<K> {
    type Output;

    /// `r` is an outcome that indexing `self` with `key` may have.
    spec fn indexes_to(&self, key: K, r: Result<Self::Output, IndexError>) -> bool;

    fn homun_idx(&self, key: K) -> (r: Result<Self::Output, IndexError>)
        ensures
            self.indexes_to(key, r),
    ;
}

impl<T: Clone> HomunIndex<i32> for Vec<T> {
    type Output = T;

    /// A clone of the selected element, or the normalized index and the
    /// length where the index selects none.
    open spec fn indexes_to(&self, key: i32, r: Result<T, IndexError>) -> bool {
        match element_at(self@, key as int) {
            Some(element) => r matches Ok(out) && cloned(element, out),
            None => r == Err::<T, IndexError>(
                IndexError::IndexOutOfBounds {
                    index: normalized_index(self@.len() as int, key as int) as i64,
                    len: self@.len() as usize,
                },
            ),
        }
    }

    fn homun_idx(&self, key: i32) -> (r: Result<T, IndexError>) {
        let len: usize = self.len();
        let at: i128 = if key < 0 {
            len as i128 + key as i128
        } else {
            key as i128
        };
        if 0 <= at && at < len as i128 {
            Ok(self[at as usize].clone())
        } else {
            Err(IndexError::IndexOutOfBounds { index: at as i64, len })
        }
    }
}

impl<V: Clone> HomunIndex<i32> for HashMap<i32, V> {
    type Output = V;

    /// A clone of the value stored under `key`, or `KeyNotFound`.
    open spec fn indexes_to(&self, key: i32, r: Result<V, IndexError>) -> bool {
        if self@.contains_key(key) {
            r matches Ok(out) && cloned(self@[key], out)
        } else {
            r == Err::<V, IndexError>(IndexError::KeyNotFound)
        }
    }

    fn homun_idx(&self, key: i32) -> (r: Result<V, IndexError>) {
        broadcast use group_hash_axioms;

        match self.get(&key) {
            Some(value) => Ok(value.clone()),
            None => Err(IndexError::KeyNotFound),
        }
    }
}

impl<V: Clone> HomunIndex<&str> for HashMap<String, V> {
    type Output = V;

    /// A clone of the value stored under the key that `key` borrows from,
    /// or `KeyNotFound`; this is owed where `String` keys hash and compare
    /// as the map's model asks.
    open spec fn indexes_to(&self, key: &str, r: Result<V, IndexError>) -> bool {
        obeys_key_model::<String>() ==> match r {
            Ok(out) => exists|value: V|
                #[trigger] maps_borrowed_key_to_value(self@, key, value) && cloned(value, out),
            Err(e) => e == IndexError::KeyNotFound && !contains_borrowed_key(self@, key),
        }
    }

    fn homun_idx(&self, key: &str) -> (r: Result<V, IndexError>) {
        broadcast use group_hash_axioms;

        match self.get(key) {
            Some(value) => {
                let out = value.clone();
                assert(maps_borrowed_key_to_value(self@, key, *value) && cloned(*value, out)
                    || !obeys_key_model::<String>());
                Ok(out)
            },
            None => Err(IndexError::KeyNotFound),
        }
    }
}

impl<V: Clone> HomunIndex<&str> for StringHashMap<V> {
    type Output = V;

    /// A clone of the value stored under the text `key`, or
    /// `KeyNotFound`.
    open spec fn indexes_to(&self, key: &str, r: Result<V, IndexError>) -> bool {
        if self@.contains_key(key@) {
            r matches Ok(out) && cloned(self@[key@], out)
        } else {
            r == Err::<V, IndexError>(IndexError::KeyNotFound)
        }
    }

    fn homun_idx(&self, key: &str) -> (r: Result<V, IndexError>) {
        match self.get(key) {
            Some(value) => Ok(value.clone()),
            None => Err(IndexError::KeyNotFound),
        }
    }
}

/// `a` followed by `b`: nothing is dropped, reordered or merged.
pub fn homun_concat<T>(a: Vec<T>, b: Vec<T>) -> (out: Vec<T>)
    ensures
        out@ == a@ + b@,
{
    let mut out = a;
    let mut rest = b;
    out.append(&mut rest);
    out
}

/// A negative index in range selects what the index counted from the front
/// selects.
pub proof fn lemma_negative_index_wraps<T>(s: Seq<T>, index: int)
    requires
        -s.len() <= index < s.len(),
    ensures
        element_at(s, index) == element_at(
            s,
            if index < 0 {
                index + s.len()
            } else {
                index
            },
        ),
        element_at(s, index) is Some,
{
}

/// The slice from the front to the length, in steps of one, is the whole
/// sequence.
pub proof fn lemma_identity_slice<T>(s: Seq<T>)
    ensures
        slice_of(s, 0, s.len() as int, 1) == s,
{
    let len = s.len() as int;
    assert(slice_indices(len, 0, len, 1).len() == len);
    assert(slice_of(s, 0, len, 1) =~= s);
}

/// A backward slice in steps of one with neither bound given is the
/// reversed sequence.
pub proof fn lemma_default_bounds_reverse<T>(s: Seq<T>)
    ensures
        slice_of(s, 0, UNSPECIFIED_END as int, -1) == s.reverse(),
{
    let len = s.len() as int;
    assert(slice_indices(len, 0, UNSPECIFIED_END as int, -1).len() == len);
    assert(slice_of(s, 0, UNSPECIFIED_END as int, -1) =~= s.reverse());
}

/// A backward slice from the default start whose `end` is the length has
/// the length as its lower bound, too, and selects nothing; so it is the
/// reversed sequence where the sequence is empty. (A length equal to
/// [`UNSPECIFIED_END`] reads as "no end given" and reverses as well.)
pub proof fn lemma_backward_slice_to_len<T>(s: Seq<T>)
    requires
        s.len() == 0 || s.len() == UNSPECIFIED_END,
    ensures
        slice_of(s, 0, s.len() as int, -1) == s.reverse(),
{
    let len = s.len() as int;
    if len == UNSPECIFIED_END {
        lemma_default_bounds_reverse(s);
    } else {
        assert(slice_of(s, 0, len, -1) =~= s.reverse());
    }
}

/// A step of zero selects nothing, whatever the bounds.
pub proof fn lemma_zero_step_slice<T>(s: Seq<T>, start: int, end: int)
    ensures
        slice_of(s, start, end, 0) == Seq::<T>::empty(),
{
    assert(slice_of(s, start, end, 0) =~= Seq::<T>::empty());
}

/// The length of a slice depends on the length of the sequence and on the
/// request alone, not on the elements.
pub proof fn lemma_slice_len<T>(s: Seq<T>, t: Seq<T>, start: int, end: int, step: int)
    requires
        s.len() == t.len(),
    ensures
        slice_of(s, start, end, step).len() == slice_of(t, start, end, step).len(),
        slice_of(s, start, end, step).len() <= s.len(),
{
    let len = s.len() as int;
    let lo = slice_lower(len, start, end, step);
    let hi = slice_upper(len, start, end, step);
    let stride = if step > 0 {
        step
    } else {
        -step
    };
    if step != 0 {
        let n = stride_count(lo, hi, stride) as int;
        if n > 0 {
            lemma_stride_count(lo, hi, stride, n - 1);
            assert((n - 1) * stride >= n - 1) by (nonlinear_arith)
                requires
                    n >= 1,
                    stride >= 1,
            ;
        }
    }
}

/// A concatenation is as long as its parts together, and an index into the
/// first part selects from it what it selects from the first part alone.
/// (A negative index counts from the end of the whole, so it selects the
/// same only where the second part is empty.)
pub proof fn lemma_concat_index<T>(a: Seq<T>, b: Seq<T>, index: int)
    requires
        index < a.len(),
        0 <= index || b.len() == 0,
    ensures
        (a + b).len() == a.len() + b.len(),
        element_at(a + b, index) == element_at(a, index),
{
    if b.len() == 0 {
        assert(a + b =~= a);
    }
}

/// The membership test of the source language: `item in collection`.
pub trait HomunContains<T> {
    /// Whether the test is pinned down for this kind of collection: it is
    /// where the element type compares, and hashes, as its model says.
    spec fn obeys_contains_spec() -> bool;

    /// `item` is a member of `self`.
    spec fn holds(&self, item: &T) -> bool;

    fn homun_contains(&self, item: &T) -> (r: bool)
        ensures
            Self::obeys_contains_spec() ==> r == self.holds(item),
    ;
}

/// A sequence holds what compares equal to one of its elements.
impl<T: PartialEq> HomunContains<T> for Vec<T> {
    open spec fn obeys_contains_spec() -> bool {
        T::obeys_eq_spec()
    }

    open spec fn holds(&self, item: &T) -> bool {
        exists|i: int| 0 <= i < self@.len() && (#[trigger] self@[i]).eq_spec(item)
    }

    fn homun_contains(&self, item: &T) -> (r: bool) {
        let mut i: usize = 0;
        while i < self.len()
            invariant
                i <= self.len(),
                T::obeys_eq_spec() ==> forall|j: int|
                    0 <= j < i ==> !(#[trigger] self@[j]).eq_spec(item),
            decreases self.len() - i,
        {
            if self[i] == *item {
                return true;
            }
            i = i + 1;
        }
        false
    }
}

/// A set holds its elements.
impl<T: Eq + std::hash::Hash> HomunContains<T> for HashSet<T> {
    open spec fn obeys_contains_spec() -> bool {
        obeys_key_model::<T>()
    }

    open spec fn holds(&self, item: &T) -> bool {
        self@.contains(*item)
    }

    fn homun_contains(&self, item: &T) -> (r: bool) {
        broadcast use group_hash_axioms;

        self.contains(item)
    }
}

/// A mapping holds its keys.
impl<K: Eq + std::hash::Hash, V> HomunContains<K> for HashMap<K, V> {
    open spec fn obeys_contains_spec() -> bool {
        obeys_key_model::<K>()
    }

    open spec fn holds(&self, item: &K) -> bool {
        self@.contains_key(*item)
    }

    fn homun_contains(&self, item: &K) -> (r: bool) {
        broadcast use group_hash_axioms;

        self.contains_key(item)
    }
}

/// A sequence of strings holds a text that one of them spells.
impl HomunContains<&str> for Vec<String> {
    open spec fn obeys_contains_spec() -> bool {
        true
    }

    open spec fn holds(&self, item: &&str) -> bool {
        exists|i: int| 0 <= i < self@.len() && (#[trigger] self@[i])@ == item@
    }

    fn homun_contains(&self, item: &&str) -> (r: bool) {
        let mut i: usize = 0;
        while i < self.len()
            invariant
                i <= self.len(),
                forall|j: int| 0 <= j < i ==> (#[trigger] self@[j])@ != item@,
            decreases self.len() - i,
        {
            if text_eq(self[i].as_str(), *item) {
                return true;
            }
            i = i + 1;
        }
        false
    }
}

/// A mapping with string keys holds a text that one of its keys borrows
/// as.
impl<V> HomunContains<&str> for HashMap<String, V> {
    open spec fn obeys_contains_spec() -> bool {
        obeys_key_model::<String>()
    }

    open spec fn holds(&self, item: &&str) -> bool {
        contains_borrowed_key(self@, *item)
    }

    fn homun_contains(&self, item: &&str) -> (r: bool) {
        broadcast use group_hash_axioms;

        self.contains_key(*item)
    }
}

/// A mapping with text keys holds a text that is one of its keys.
impl<V> HomunContains<&str> for StringHashMap<V> {
    open spec fn obeys_contains_spec() -> bool {
        true
    }

    open spec fn holds(&self, item: &&str) -> bool {
        self@.contains_key(item@)
    }

    fn homun_contains(&self, item: &&str) -> (r: bool) {
        self.contains_key(*item)
    }
}

/// A text holds a character that is one of its characters.
impl HomunContains<char> for str {
    open spec fn obeys_contains_spec() -> bool {
        true
    }

    open spec fn holds(&self, item: &char) -> bool {
        self@.contains(*item)
    }

    fn homun_contains(&self, item: &char) -> (r: bool) {
        let chars = chars_of(self);
        let mut i: usize = 0;
        while i < chars.len()
            invariant
                i <= chars.len(),
                chars@ == self@,
                forall|j: int| 0 <= j < i ==> chars@[j] != *item,
            decreases chars.len() - i,
        {
            if chars[i] == *item {
                return true;
            }
            i = i + 1;
        }
        false
    }
}

impl HomunContains<char> for String {
    open spec fn obeys_contains_spec() -> bool {
        true
    }

    open spec fn holds(&self, item: &char) -> bool {
        self@.contains(*item)
    }

    fn homun_contains(&self, item: &char) -> (r: bool) {
        self.as_str().homun_contains(item)
    }
}

/// A text holds a text that stands somewhere in it; the empty text stands
/// in every text.
impl HomunContains<&str> for str {
    open spec fn obeys_contains_spec() -> bool {
        true
    }

    open spec fn holds(&self, item: &&str) -> bool {
        occurs_in(self@, item@)
    }

    fn homun_contains(&self, item: &&str) -> (r: bool) {
        let haystack = chars_of(self);
        let needle = chars_of(*item);
        contains_chars(&haystack, &needle)
    }
}

impl HomunContains<&str> for String {
    open spec fn obeys_contains_spec() -> bool {
        true
    }

    open spec fn holds(&self, item: &&str) -> bool {
        occurs_in(self@, item@)
    }

    fn homun_contains(&self, item: &&str) -> (r: bool) {
        self.as_str().homun_contains(item)
    }
}

/// The text that `x` displays as.
pub fn str_of<T: std::fmt::Display>(x: T) -> (s: String)
    ensures
        vstd::string::to_string_from_display_ensures::<T>(&x, s),
{
    x.to_string()
}

} // verus!
