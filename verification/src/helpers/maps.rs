use std::collections::HashMap;
use vstd::prelude::*;
use vstd::std_specs::iter::IteratorSpec;

verus! {

/// The keys of a map, each once, in the order in which the map hands them out.
pub(crate) fn keys_of<V>(map: &HashMap<u128, V>) -> (keys: Vec<u128>)
    ensures
        keys@.no_duplicates(),
        keys@.to_set() == map@.dom(),
{
    broadcast use vstd::std_specs::hash::group_hash_axioms;

    let mut keys: Vec<u128> = Vec::new();
    for key in it: map.keys()
        invariant
            it.seq() == map.keys().remaining(),
            keys@ == it.seq().subrange(0, it.index() as int).unref(),
    {
        keys.push(*key);
    }
    proof {
        let remaining = map.keys().remaining();
        assert(keys@ == remaining.unref());
        assert forall|i: int, j: int|
            0 <= i < keys@.len() && 0 <= j < keys@.len() && i != j implies keys@[i] != keys@[j] by {
            assert(keys@[i] == *remaining[i]);
            assert(keys@[j] == *remaining[j]);
            assert(remaining[i] != remaining[j]);
        }
    }
    keys
}

} // verus!
