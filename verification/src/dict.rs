//! Building mappings from sequences.

use std::collections::HashMap;
use vstd::prelude::*;
use vstd::std_specs::hash::*;
use vstd::std_specs::iter::IteratorSpec;

verus! {

/// The mapping that the pairs build when they are stored one after the
/// other: of two pairs with one key the later one stays.
pub open spec fn map_of_pairs<K, V>(pairs: Seq<(K, V)>) -> Map<K, V>
    decreases pairs.len(),
{
    if pairs.len() == 0 {
        Map::empty()
    } else {
        map_of_pairs(pairs.drop_last()).insert(pairs.last().0, pairs.last().1)
    }
}

/// The pairs of what stands at the same position in `keys` and in
/// `values`, as far as the shorter of the two reaches.
pub open spec fn zipped<K, V>(keys: Seq<K>, values: Seq<V>) -> Seq<(K, V)> {
    Seq::new(
        if keys.len() <= values.len() {
            keys.len()
        } else {
            values.len()
        },
        |i: int| (keys[i], values[i]),
    )
}

/// The mapping that holds each pair of `pairs` as an entry. Where a key
/// comes more than once, its last value stays.
pub fn dict_from_pairs<K: Eq + std::hash::Hash, V>(pairs: Vec<(K, V)>) -> (d: HashMap<K, V>)
    ensures
        obeys_key_model::<K>() ==> d@ == map_of_pairs(pairs@),
{
    broadcast use group_hash_axioms;

    let mut d: HashMap<K, V> = HashMap::new();
    let ghost all = pairs@;
    assert(all.take(0) =~= Seq::<(K, V)>::empty());
    for pair in it: pairs
        invariant
            it.seq() == all,
            obeys_key_model::<K>() ==> d@ == map_of_pairs(all.take(it.index() as int)),
    {
        proof {
            let now = all.take(it.index() + 1);
            assert(now.drop_last() == all.take(it.index() as int));
            assert(now.last() == pair);
        }
        d.insert(pair.0, pair.1);
    }
    assert(all.take(all.len() as int) == all);
    d
}

/// The mapping from each key to the value at the same position. Keys or
/// values beyond the end of the shorter sequence are left out.
pub fn dict_zip<K: Eq + std::hash::Hash, V>(keys: Vec<K>, values: Vec<V>) -> (d: HashMap<K, V>)
    ensures
        obeys_key_model::<K>() ==> d@ == map_of_pairs(zipped(keys@, values@)),
{
    broadcast use group_hash_axioms;

    let ghost all_keys = keys@;
    let ghost all_values = values@;
    let ghost pairs = zipped(keys@, values@);
    // the values, last to first, so that they can be taken one by one
    let mut rest: Vec<V> = Vec::new();
    let mut values = values;
    while values.len() > 0
        invariant
            values@.len() <= all_values.len(),
            values@ == all_values.take(values@.len() as int),
            rest@.len() == all_values.len() - values@.len(),
            forall|k: int|
                0 <= k < rest@.len() ==> #[trigger] rest@[k] == all_values[all_values.len() - 1 - k],
        decreases values.len(),
    {
        let ghost n = values@.len();
        match values.pop() {
            Some(value) => {
                assert(value == all_values[n - 1]);
                rest.push(value);
            },
            None => {},
        }
    }
    let mut d: HashMap<K, V> = HashMap::new();
    assert(pairs.take(0) =~= Seq::<(K, V)>::empty());
    let ghost mut done: int = 0;
    for key in it: keys
        invariant
            it.seq() == all_keys,
            pairs == zipped(all_keys, all_values),
            done == if it.index() <= pairs.len() { it.index() } else { pairs.len() as int },
            rest@.len() == all_values.len() - done,
            forall|k: int|
                0 <= k < rest@.len() ==> #[trigger] rest@[k] == all_values[all_values.len() - 1 - k],
            obeys_key_model::<K>() ==> d@ == map_of_pairs(pairs.take(done)),
    {
        match rest.pop() {
            Some(value) => {
                proof {
                    let now = pairs.take(done + 1);
                    assert(now.drop_last() == pairs.take(done));
                    assert(now.last() == (key, value));
                    done = done + 1;
                }
                d.insert(key, value);
            },
            None => {},
        }
    }
    assert(pairs.take(pairs.len() as int) == pairs);
    d
}

/// `d` itself: a mapping handed over by value is the caller's copy
/// already.
pub fn dict_clone<K: Eq + std::hash::Hash + Clone, V: Clone>(d: HashMap<K, V>) -> (r: HashMap<K, V>)
    ensures
        r == d,
{
    d
}

} // verus!
