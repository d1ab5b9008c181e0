//! Functions on sequences.

use std::cmp::Ordering;
use std::collections::HashSet;
use vstd::prelude::*;
use vstd::std_specs::cmp::PartialEqSpec;
use vstd::std_specs::cmp::PartialOrdSpec;
use vstd::std_specs::hash::*;
use crate::builtin::clones_of;

verus! {

/// The elements of `v`, last to first.
pub fn reversed<T: Clone>(v: &[T]) -> (out: Vec<T>)
    ensures
        clones_of(out@, v@.reverse()),
{
    let mut out: Vec<T> = Vec::new();
    let mut left: usize = v.len();
    while left > 0
        invariant
            left <= v.len(),
            out.len() == v.len() - left,
            forall|k: int| 0 <= k < out.len() ==> cloned(#[trigger] v@.reverse()[k], out@[k]),
        decreases left,
    {
        left = left - 1;
        assert(v@.reverse()[out.len() as int] == v@[left as int]);
        out.push(v[left].clone());
    }
    out
}

/// Appends `item` to `v`.
pub fn push<T>(v: &mut Vec<T>, item: T)
    ensures
        final(v)@ == old(v)@.push(item),
{
    v.push(item);
}

/// Takes the last element out of `v`; `None` where `v` is empty.
pub fn pop<T>(v: &mut Vec<T>) -> (last: Option<T>)
    ensures
        match last {
            Some(item) => old(v)@.len() > 0 && item == old(v)@.last() && final(v)@ == old(
                v,
            )@.drop_last(),
            None => old(v)@.len() == 0 && final(v)@ == old(v)@,
        },
{
    v.pop()
}

/// The position that `remove` takes an element from: a negative index
/// counts from the end, and not further back than to the first element.
pub open spec fn removal_position(len: int, index: int) -> int {
    if index >= 0 {
        index
    } else if len + index < 0 {
        0
    } else {
        len + index
    }
}

/// Takes the element at `index` out of `v` and returns it. A negative
/// index counts from the end. The position must hold an element.
pub fn remove<T>(v: &mut Vec<T>, index: i32) -> (item: T)
    requires
        removal_position(old(v)@.len() as int, index as int) < old(v)@.len(),
    ensures
        item == old(v)@[removal_position(old(v)@.len() as int, index as int)],
        final(v)@ == old(v)@.remove(removal_position(old(v)@.len() as int, index as int)),
{
    let len: usize = v.len();
    let at: usize = if index >= 0 {
        index as usize
    } else {
        let back: usize = (-(index as i64)) as usize;
        if back > len {
            0
        } else {
            len - back
        }
    };
    v.remove(at)
}

/// The position of the first element of `v` that equals `item`, or `-1`
/// where there is none.
pub open spec fn first_position<T: PartialEq>(v: Seq<T>, item: T) -> int
    decreases v.len(),
{
    if v.len() == 0 {
        -1
    } else if v[0].eq_spec(&item) {
        0
    } else {
        let rest = first_position(v.drop_first(), item);
        if rest < 0 {
            -1
        } else {
            rest + 1
        }
    }
}

/// The elements of `v`, each with its position in front.
pub fn enumerate<T: Clone>(v: &[T]) -> (out: Vec<(i32, T)>)
    ensures
        out@.len() == v@.len(),
        forall|k: int|
            0 <= k < v@.len() ==> (#[trigger] out@[k]).0 == k as i32 && cloned(v@[k], out@[k].1),
{
    let mut out: Vec<(i32, T)> = Vec::new();
    let mut i: usize = 0;
    while i < v.len()
        invariant
            i <= v.len(),
            out.len() == i,
            forall|k: int|
                0 <= k < i ==> (#[trigger] out@[k]).0 == k as i32 && cloned(v@[k], out@[k].1),
        decreases v.len() - i,
    {
        out.push((#[verifier::truncate] (i as i32), v[i].clone()));
        i = i + 1;
    }
    out
}

/// The pairs of elements that stand at the same position in `a` and in
/// `b`, as far as the shorter of the two reaches.
pub fn zip<A: Clone, B: Clone>(a: &[A], b: &[B]) -> (out: Vec<(A, B)>)
    ensures
        out@.len() == if a@.len() <= b@.len() {
            a@.len()
        } else {
            b@.len()
        },
        forall|k: int|
            0 <= k < out@.len() ==> cloned(a@[k], (#[trigger] out@[k]).0) && cloned(
                b@[k],
                out@[k].1,
            ),
{
    let mut out: Vec<(A, B)> = Vec::new();
    let mut i: usize = 0;
    while i < a.len() && i < b.len()
        invariant
            i <= a.len(),
            i <= b.len(),
            out.len() == i,
            forall|k: int|
                0 <= k < i ==> cloned(a@[k], (#[trigger] out@[k]).0) && cloned(b@[k], out@[k].1),
        decreases a.len() - i,
    {
        out.push((a[i].clone(), b[i].clone()));
        i = i + 1;
    }
    out
}

/// The position of the first element of `v` that equals `item`, or `-1`
/// where none does.
pub fn index_of<T: Clone + PartialEq>(v: &[T], item: &T) -> (r: i32)
    ensures
        T::obeys_eq_spec() ==> r == first_position(v@, *item) as i32,
{
    let mut i: usize = 0;
    assert(v@.skip(0) == v@);
    while i < v.len()
        invariant
            i <= v.len(),
            T::obeys_eq_spec() ==> first_position(v@.skip(i as int), *item) < 0
                ==> first_position(v@, *item) < 0,
            T::obeys_eq_spec() ==> first_position(v@.skip(i as int), *item) >= 0
                ==> first_position(v@, *item) == i + first_position(v@.skip(i as int), *item),
        decreases v.len() - i,
    {
        let ghost rest = v@.skip(i as int);
        assert(rest[0] == v@[i as int]);
        assert(rest.drop_first() == v@.skip(i + 1));
        if v[i] == *item {
            return #[verifier::truncate] (i as i32);
        }
        i = i + 1;
    }
    -1
}

/// The elements of the sequences in `v`, one sequence after the other.
pub fn flatten<T: Clone>(v: &[Vec<T>]) -> (out: Vec<T>)
    ensures
        clones_of(out@, v@.map_values(|part: Vec<T>| part@).flatten()),
{
    let ghost parts = v@.map_values(|part: Vec<T>| part@);
    let mut out: Vec<T> = Vec::new();
    let mut i: usize = 0;
    assert(parts.take(0) =~= Seq::<Seq<T>>::empty());
    while i < v.len()
        invariant
            i <= v.len(),
            parts == v@.map_values(|part: Vec<T>| part@),
            clones_of(out@, parts.take(i as int).flatten()),
        decreases v.len() - i,
    {
        let part = &v[i];
        let ghost done = parts.take(i as int).flatten();
        let mut j: usize = 0;
        while j < part.len()
            invariant
                j <= part.len(),
                i < v.len(),
                part@ == parts[i as int],
                out@.len() == done.len() + j,
                forall|k: int| 0 <= k < done.len() ==> cloned(#[trigger] done[k], out@[k]),
                forall|k: int| 0 <= k < j ==> cloned(#[trigger] part@[k], out@[done.len() + k]),
            decreases part.len() - j,
        {
            out.push(part[j].clone());
            j = j + 1;
        }
        proof {
            parts.take(i as int).lemma_flatten_push(parts[i as int]);
            assert(parts.take(i as int).push(parts[i as int]) =~= parts.take(i + 1));
            let next = parts.take(i + 1).flatten();
            assert(next == done + part@);
            assert forall|k: int| 0 <= k < next.len() implies cloned(
                #[trigger] next[k],
                out@[k],
            ) by {
                if k < done.len() {
                    assert(next[k] == done[k]);
                } else {
                    assert(next[k] == part@[k - done.len()]);
                }
            }
        }
        i = i + 1;
    }
    assert(parts.take(v@.len() as int) == parts);
    out
}

/// `f`, called on a clone of `a`, may answer `answer`.
pub open spec fn answers<T: Clone, F: Fn(T) -> bool>(f: F, a: T, answer: bool) -> bool {
    exists|x: T| cloned(a, x) && call_ensures(f, (x,), answer)
}

/// `f` may be called on every clone of every element of `v`.
pub open spec fn accepts_clones<T: Clone, F: Fn(T) -> bool>(f: F, v: Seq<T>) -> bool {
    forall|i: int, x: T| 0 <= i < v.len() && cloned(v[i], x) ==> call_requires(f, (x,))
}

/// `f`, called on a clone of a clone of `a`, may answer `answer`.
pub open spec fn answers_second_clone<T: Clone, F: Fn(T) -> bool>(
    f: F,
    a: T,
    answer: bool,
) -> bool {
    exists|x: T, y: T| cloned(a, x) && cloned(x, y) && call_ensures(f, (y,), answer)
}

/// `f` may be called on every clone of a clone of every element of `v`.
pub open spec fn accepts_second_clones<T: Clone, F: Fn(T) -> bool>(f: F, v: Seq<T>) -> bool {
    forall|i: int, x: T, y: T|
        0 <= i < v.len() && cloned(v[i], x) && cloned(x, y) ==> call_requires(f, (y,))
}

/// Whether `f` holds of some element of `v`. `f` is called on a clone of
/// each element in turn, up to the first of which it holds.
pub fn any<T: Clone, F: Fn(T) -> bool>(v: &[T], f: F) -> (r: bool)
    requires
        accepts_clones(f, v@),
    ensures
        r ==> exists|i: int| 0 <= i < v@.len() && answers(f, #[trigger] v@[i], true),
        !r ==> forall|i: int| 0 <= i < v@.len() ==> answers(f, #[trigger] v@[i], false),
{
    let mut i: usize = 0;
    while i < v.len()
        invariant
            i <= v.len(),
            accepts_clones(f, v@),
            forall|k: int| 0 <= k < i ==> answers(f, #[trigger] v@[k], false),
        decreases v.len() - i,
    {
        let x = v[i].clone();
        assert(cloned(v@[i as int], x));
        let hit = f(x);
        assert(answers(f, v@[i as int], hit));
        if hit {
            return true;
        }
        i = i + 1;
    }
    false
}

/// Whether `f` holds of every element of `v`. `f` is called on a clone of
/// each element in turn, up to the first of which it does not hold.
pub fn all<T: Clone, F: Fn(T) -> bool>(v: &[T], f: F) -> (r: bool)
    requires
        accepts_clones(f, v@),
    ensures
        r ==> forall|i: int| 0 <= i < v@.len() ==> answers(f, #[trigger] v@[i], true),
        !r ==> exists|i: int| 0 <= i < v@.len() && answers(f, #[trigger] v@[i], false),
{
    let mut i: usize = 0;
    while i < v.len()
        invariant
            i <= v.len(),
            accepts_clones(f, v@),
            forall|k: int| 0 <= k < i ==> answers(f, #[trigger] v@[k], true),
        decreases v.len() - i,
    {
        let x = v[i].clone();
        assert(cloned(v@[i as int], x));
        let hit = f(x);
        assert(answers(f, v@[i as int], hit));
        if !hit {
            return false;
        }
        i = i + 1;
    }
    true
}

/// How many of `hits` are true.
pub open spec fn count_true(hits: Seq<bool>) -> nat
    decreases hits.len(),
{
    if hits.len() == 0 {
        0
    } else {
        count_true(hits.drop_last()) + if hits.last() {
            1nat
        } else {
            0nat
        }
    }
}

/// `hits` tells for each element of `v` what `f` answered for it.
pub open spec fn tells_answers<T: Clone, F: Fn(T) -> bool>(f: F, v: Seq<T>, hits: Seq<bool>) -> bool {
    &&& hits.len() == v.len()
    &&& forall|i: int| 0 <= i < v.len() ==> answers_second_clone(f, #[trigger] v[i], hits[i])
}

/// The number of elements of `v` of which `f` holds. `f` is called once
/// for each element, on a clone of a clone of it.
pub fn count<T: Clone, F: Fn(T) -> bool>(v: &[T], f: F) -> (r: i32)
    requires
        accepts_second_clones(f, v@),
    ensures
        exists|hits: Seq<bool>| #[trigger]
            tells_answers(f, v@, hits) && r == count_true(hits) as i32,
{
    let mut n: usize = 0;
    let mut i: usize = 0;
    let ghost mut hits: Seq<bool> = Seq::empty();
    while i < v.len()
        invariant
            i <= v.len(),
            n == count_true(hits),
            n <= i,
            accepts_second_clones(f, v@),
            tells_answers(f, v@.take(i as int), hits),
        decreases v.len() - i,
    {
        let x = v[i].clone();
        let y = x.clone();
        assert(cloned(v@[i as int], x) && cloned(x, y));
        let hit = f(y);
        assert(answers_second_clone(f, v@[i as int], hit));
        proof {
            let before = hits;
            hits = hits.push(hit);
            assert(hits.drop_last() == before);
            assert forall|k: int| 0 <= k < i + 1 implies answers_second_clone(
                f,
                #[trigger] v@.take(i + 1)[k],
                hits[k],
            ) by {
                if k < i {
                    assert(v@.take(i as int)[k] == v@[k]);
                    assert(hits[k] == before[k]);
                }
            }
        }
        if hit {
            n = n + 1;
        }
        i = i + 1;
    }
    assert(v@.take(v@.len() as int) == v@);
    #[verifier::truncate]
    (n as i32)
}

/// The elements of `s` without those that an earlier element equals.
pub open spec fn first_occurrences<T>(s: Seq<T>) -> Seq<T>
    decreases s.len(),
{
    if s.len() == 0 {
        Seq::empty()
    } else if s.drop_last().contains(s.last()) {
        first_occurrences(s.drop_last())
    } else {
        first_occurrences(s.drop_last()).push(s.last())
    }
}

/// Cloning a `T` gives an equal value.
pub open spec fn clone_is_faithful<T: Clone>() -> bool {
    forall|a: T, b: T| #[trigger] cloned(a, b) ==> a == b
}

/// The elements of `v`, each only where it occurs first. This is owed
/// where the elements hash and compare as a set's model asks, and where a
/// clone equals what it was cloned from.
pub fn unique<T: Clone + Eq + std::hash::Hash>(v: &[T]) -> (out: Vec<T>)
    ensures
        obeys_key_model::<T>() && clone_is_faithful::<T>() ==> out@ == first_occurrences(v@),
{
    broadcast use group_hash_axioms;

    let mut seen: HashSet<T> = HashSet::new();
    let mut out: Vec<T> = Vec::new();
    let mut i: usize = 0;
    assert(v@.take(0) =~= Seq::<T>::empty());
    while i < v.len()
        invariant
            i <= v.len(),
            obeys_key_model::<T>() && clone_is_faithful::<T>() ==> {
                &&& out@ == first_occurrences(v@.take(i as int))
                &&& seen@ == v@.take(i as int).to_set()
            },
        decreases v.len() - i,
    {
        let x = v[i].clone();
        let key = x.clone();
        let fresh = seen.insert(key);
        proof {
            let before = v@.take(i as int);
            let now = v@.take(i + 1);
            assert(now.drop_last() == before);
            assert(now.last() == v@[i as int]);
            if obeys_key_model::<T>() && clone_is_faithful::<T>() {
                assert(cloned(v@[i as int], x) && cloned(x, key));
                assert(x == v@[i as int] && key == x);
                assert(before.contains(key) <==> before.to_set().contains(key));
                assert(now.to_set() =~= before.to_set().insert(key)) by {
                    assert forall|e: T| now.to_set().contains(e) <==> before.to_set().insert(
                        key,
                    ).contains(e) by {
                        if now.contains(e) {
                            let k = choose|k: int| 0 <= k < now.len() && now[k] == e;
                            if k < i {
                                assert(before[k] == e);
                            }
                        }
                        if before.contains(e) {
                            let k = choose|k: int| 0 <= k < before.len() && before[k] == e;
                            assert(now[k] == e);
                        }
                        if e == key {
                            assert(now[i as int] == e);
                        }
                    }
                }
            }
        }
        if fresh {
            out.push(x);
        }
        i = i + 1;
    }
    assert(v@.take(v@.len() as int) == v@);
    out
}

/// `s` is in ascending order.
pub open spec fn ascending<T: PartialOrd>(s: Seq<T>) -> bool {
    forall|i: int, j: int|
        #![trigger s[i], s[j]]
        0 <= i < j < s.len() ==> s[i].partial_cmp_spec(&s[j]) matches Some(
            Ordering::Less
            | Ordering::Equal,
        )
}

/// `slice::sort`: puts the elements in ascending order. Nothing is lost
/// or added. The standard library may panic where the type's order is not
/// a total order, so such a type is not admitted.
#[verifier::external_body]
fn sort_in_place<T: Ord>(v: &mut Vec<T>)
    requires
        vstd::laws_cmp::obeys_cmp::<T>(),
    ensures
        final(v)@.to_multiset() == old(v)@.to_multiset(),
        ascending(final(v)@),
{
    v.sort()
}

/// Clones of the elements of `v`, in order.
pub fn to_vec<T: Clone>(v: &[T]) -> (out: Vec<T>)
    ensures
        clones_of(out@, v@),
{
    let mut out: Vec<T> = Vec::new();
    let mut i: usize = 0;
    while i < v.len()
        invariant
            i <= v.len(),
            out.len() == i,
            forall|k: int| 0 <= k < i ==> cloned(#[trigger] v@[k], out@[k]),
        decreases v.len() - i,
    {
        out.push(v[i].clone());
        i = i + 1;
    }
    out
}

/// The elements of `v` in ascending order. The order of the element type
/// must be a total order.
pub fn sorted<T: Clone + Ord>(v: &[T]) -> (out: Vec<T>)
    requires
        vstd::laws_cmp::obeys_cmp::<T>(),
    ensures
        ascending(out@),
        exists|copy: Seq<T>| clones_of(copy, v@) && #[trigger] copy.to_multiset() == out@.to_multiset(),
{
    let mut out = to_vec(v);
    let ghost copy = out@;
    sort_in_place(&mut out);
    assert(clones_of(copy, v@) && copy.to_multiset() == out@.to_multiset());
    out
}

} // verus!
