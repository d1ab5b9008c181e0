//! Absolute value, minimum, maximum and clamping, for every type that
//! can be compared.
//!
//! What each function returns is stated over the type's own account of its
//! comparison (`partial_cmp_spec`), and is owed where the type keeps to
//! that account.

use std::cmp::Ordering;
use std::ops::Neg;
use vstd::prelude::*;
use vstd::std_specs::cmp::PartialOrdSpec;
use vstd::std_specs::ops::NegSpec;

verus! {

/// `a` is less than `b`.
pub open spec fn less<T: PartialOrd>(a: T, b: T) -> bool {
    a.partial_cmp_spec(&b) == Some(Ordering::Less)
}

/// `a` is greater than `b`.
pub open spec fn greater<T: PartialOrd>(a: T, b: T) -> bool {
    a.partial_cmp_spec(&b) == Some(Ordering::Greater)
}

/// `a` is less than `b` or equal to it.
pub open spec fn at_most<T: PartialOrd>(a: T, b: T) -> bool {
    a.partial_cmp_spec(&b) matches Some(Ordering::Less | Ordering::Equal)
}

/// `a` is greater than `b` or equal to it.
pub open spec fn at_least<T: PartialOrd>(a: T, b: T) -> bool {
    a.partial_cmp_spec(&b) matches Some(Ordering::Greater | Ordering::Equal)
}

/// `zero` is a value that `T::default()` may return.
pub open spec fn is_default<T: Default>(zero: T) -> bool {
    call_ensures(T::default, (), zero)
}

/// The negation of `x` where `x` is less than the type's default value
/// (its zero), else `x` itself.
///
/// Where `x` may compare as less than zero, it must be a value that can
/// be negated: of a signed integer type, not the least one.
pub fn abs<T: Neg<Output = T> + PartialOrd + Default + Copy>(x: T) -> (r: T)
    requires
        forall|zero: T|
            #[trigger] is_default(zero) && (less(x, zero) || !T::obeys_partial_cmp_spec())
                ==> x.neg_req(),
    ensures
        T::obeys_partial_cmp_spec() && T::obeys_neg_spec() ==> exists|zero: T|
            #[trigger] is_default(zero) && r == if less(x, zero) {
                x.neg_spec()
            } else {
                x
            },
{
    let zero = T::default();
    assert(is_default(zero));
    if x < zero {
        x.neg()
    } else {
        x
    }
}

/// The lesser of `a` and `b`; `a` where they are equal, and `b` where
/// they cannot be compared.
pub fn min<T: PartialOrd>(a: T, b: T) -> (r: T)
    ensures
        T::obeys_partial_cmp_spec() ==> r == if at_most(a, b) {
            a
        } else {
            b
        },
{
    if a <= b {
        a
    } else {
        b
    }
}

/// The greater of `a` and `b`; `a` where they are equal, and `b` where
/// they cannot be compared.
pub fn max<T: PartialOrd>(a: T, b: T) -> (r: T)
    ensures
        T::obeys_partial_cmp_spec() ==> r == if at_least(a, b) {
            a
        } else {
            b
        },
{
    if a >= b {
        a
    } else {
        b
    }
}

/// `x`, moved to the nearer bound where it lies outside `lo..=hi`: `lo`
/// where `x` is less than `lo`, else `hi` where `x` is greater than `hi`.
pub fn clamp<T: PartialOrd>(x: T, lo: T, hi: T) -> (r: T)
    ensures
        T::obeys_partial_cmp_spec() ==> r == if less(x, lo) {
            lo
        } else if greater(x, hi) {
            hi
        } else {
            x
        },
{
    if x < lo {
        lo
    } else if x > hi {
        hi
    } else {
        x
    }
}

} // verus!
