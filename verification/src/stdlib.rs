//! The standard library of the source language: strings, numbers,
//! sequences, mappings, stacks and double-ended queues.

use std::collections::HashMap;
use std::collections::HashSet;
use vstd::hash_map::StringHashMap;
use vstd::prelude::*;
use vstd::std_specs::hash::*;
use vstd::string::StringSliceAdditionalSpecFns;

pub mod collection;
pub mod deque;
pub mod dict;
pub mod math;
pub mod stack;
pub mod strings;

verus! {

/// The length of a container, as `len(x)` of the source language counts
/// it.
pub trait HomunLen {
    /// Whether the count is pinned down for this kind of container: it is
    /// where the keys hash and compare as the container's model asks.
    spec fn obeys_len_spec() -> bool;

    /// The number of elements; of a string, the number of bytes.
    spec fn measure(&self) -> nat;

    fn homun_len(&self) -> (n: usize)
        ensures
            Self::obeys_len_spec() ==> n == self.measure(),
    ;
}

impl<T> HomunLen for Vec<T> {
    open spec fn obeys_len_spec() -> bool {
        true
    }

    open spec fn measure(&self) -> nat {
        self@.len()
    }

    fn homun_len(&self) -> (n: usize) {
        self.len()
    }
}

impl<K, V> HomunLen for HashMap<K, V> {
    open spec fn obeys_len_spec() -> bool {
        obeys_key_model::<K>()
    }

    open spec fn measure(&self) -> nat {
        self@.len()
    }

    fn homun_len(&self) -> (n: usize) {
        broadcast use group_hash_axioms;

        self.len()
    }
}

impl<V> HomunLen for StringHashMap<V> {
    open spec fn obeys_len_spec() -> bool {
        true
    }

    open spec fn measure(&self) -> nat {
        self@.len()
    }

    fn homun_len(&self) -> (n: usize) {
        self.len()
    }
}

impl<T> HomunLen for HashSet<T> {
    open spec fn obeys_len_spec() -> bool {
        obeys_key_model::<T>()
    }

    open spec fn measure(&self) -> nat {
        self@.len()
    }

    fn homun_len(&self) -> (n: usize) {
        broadcast use group_hash_axioms;

        self.len()
    }
}

impl HomunLen for String {
    open spec fn obeys_len_spec() -> bool {
        true
    }

    open spec fn measure(&self) -> nat {
        vstd::utf8::encode_utf8(self@).len()
    }

    fn homun_len(&self) -> (n: usize) {
        self.as_str().as_bytes().len()
    }
}

impl HomunLen for str {
    open spec fn obeys_len_spec() -> bool {
        true
    }

    open spec fn measure(&self) -> nat {
        vstd::utf8::encode_utf8(self@).len()
    }

    fn homun_len(&self) -> (n: usize) {
        self.as_bytes().len()
    }
}

} // verus!
