//! Reading and changing a mapping.
//!
//! A mapping keeps its entries in no order that a program can rely on, so
//! the functions that list keys, values or entries promise what is listed,
//! not where. All this is owed where the key type hashes and compares as
//! the mapping's model asks.

use std::collections::HashMap;
use vstd::prelude::*;
use vstd::std_specs::hash::*;
use vstd::std_specs::iter::IteratorSpec;
use crate::builtin::clones_of;

verus! {

/// Stores `val` under `key`, in place of what was stored there.
pub fn insert<K: Eq + std::hash::Hash, V>(d: &mut HashMap<K, V>, key: K, val: V)
    ensures
        obeys_key_model::<K>() ==> final(d)@ == old(d)@.insert(key, val),
{
    broadcast use group_hash_axioms;

    d.insert(key, val);
}

/// Takes the entry under `key` out and returns its value; `None` where
/// there is no such entry.
pub fn remove_key<K: Eq + std::hash::Hash, V>(d: &mut HashMap<K, V>, key: &K) -> (r: Option<V>)
    ensures
        obeys_key_model::<K>() ==> final(d)@ == old(d)@.remove(*key) && r == if old(
            d,
        )@.contains_key(*key) {
            Some(old(d)@[*key])
        } else {
            None
        },
{
    broadcast use group_hash_axioms;

    d.remove(key)
}

/// Clones of the keys of `d`, each once, in the order in which the
/// mapping yields them. The key type must hash and compare as the
/// mapping's model asks, as the integer types do.
pub fn keys<K: Clone, V>(d: &HashMap<K, V>) -> (out: Vec<K>)
    requires
        obeys_key_model::<K>(),
    ensures
        exists|listed: Seq<K>|
            {
                &&& #[trigger] clones_of(out@, listed)
                &&& listed.no_duplicates()
                &&& listed.to_set() == d@.dom()
            },
{
    broadcast use group_hash_axioms;

    let mut out: Vec<K> = Vec::new();
    let ghost listed = spec_keys_iter(d).remaining().unref();
    for key in it: d.keys()
        invariant
            it.seq() == spec_keys_iter(d).remaining(),
            listed == it.seq().unref(),
            clones_of(out@, listed.take(it.index() as int)),
    {
        assert(listed[it.index() as int] == *key);
        out.push(key.clone());
    }
    proof {
        assert(listed.take(listed.len() as int) == listed);
        assert(clones_of(out@, listed));
        let refs = spec_keys_iter(d).remaining();
        assert forall|i: int, j: int| 0 <= i < j < listed.len() implies listed[i] != listed[j] by {
            assert(refs[i] != refs[j]);
        }
    }
    out
}

/// `out` holds, position by position, a pair of clones of what the pair
/// of `source` holds.
pub open spec fn pair_clones_of<K: Clone, V: Clone>(out: Seq<(K, V)>, source: Seq<(K, V)>) -> bool {
    &&& out.len() == source.len()
    &&& forall|i: int|
        0 <= i < source.len() ==> cloned((#[trigger] source[i]).0, out[i].0) && cloned(
            source[i].1,
            out[i].1,
        )
}

/// Clones of the entries of `d`, each once, in the order in which the
/// mapping yields them. The key type must hash and compare as the
/// mapping's model asks, as the integer types do.
pub fn entries<K: Clone, V: Clone>(d: &HashMap<K, V>) -> (out: Vec<(K, V)>)
    requires
        obeys_key_model::<K>(),
    ensures
        exists|listed: Seq<(K, V)>|
            {
                &&& #[trigger] pair_clones_of(out@, listed)
                &&& listed.len() == d@.dom().len()
                &&& listed.to_set() == d@.kv_pairs()
            },
{
    broadcast use group_hash_axioms;

    let mut out: Vec<(K, V)> = Vec::new();
    let ghost listed = spec_hash_map_iter(d).remaining().unref();
    for entry in it: d.iter()
        invariant
            it.seq() == spec_hash_map_iter(d).remaining(),
            listed == it.seq().unref(),
            pair_clones_of(out@, listed.take(it.index() as int)),
    {
        assert(listed[it.index() as int] == (*entry.0, *entry.1));
        out.push((entry.0.clone(), entry.1.clone()));
    }
    proof {
        assert(listed.take(listed.len() as int) == listed);
        assert(pair_clones_of(out@, listed));
    }
    out
}

/// The values of the entries `listed`, in their order.
pub open spec fn values_of<K, V>(listed: Seq<(K, V)>) -> Seq<V> {
    listed.map_values(|entry: (K, V)| entry.1)
}

/// Clones of the values of `d`, one for each entry, in the order in
/// which the mapping yields its entries. The key type must hash and
/// compare as the mapping's model asks, as the integer types do.
pub fn values<K, V: Clone>(d: &HashMap<K, V>) -> (out: Vec<V>)
    requires
        obeys_key_model::<K>(),
    ensures
        exists|listed: Seq<(K, V)>|
            {
                &&& #[trigger] clones_of(out@, values_of(listed))
                &&& listed.len() == d@.dom().len()
                &&& listed.to_set() == d@.kv_pairs()
            },
{
    broadcast use group_hash_axioms;

    let mut out: Vec<V> = Vec::new();
    let ghost listed = spec_hash_map_iter(d).remaining().unref();
    let ghost wanted = values_of(listed);
    for entry in it: d.iter()
        invariant
            it.seq() == spec_hash_map_iter(d).remaining(),
            listed == it.seq().unref(),
            wanted == values_of(listed),
            clones_of(out@, wanted.take(it.index() as int)),
    {
        assert(listed[it.index() as int] == (*entry.0, *entry.1));
        assert(wanted[it.index() as int] == *entry.1);
        out.push(entry.1.clone());
    }
    proof {
        assert(wanted.take(wanted.len() as int) == wanted);
        assert(clones_of(out@, wanted));
    }
    out
}

} // verus!
