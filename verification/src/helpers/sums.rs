use vstd::prelude::*;

verus! {

/// The sum of `amount` over the keys of a finite set.
pub open spec fn sum_over<K>(keys: Set<K>, amount: spec_fn(K) -> nat) -> nat {
    keys.fold(0nat, |total: nat, key: K| total + amount(key))
}

/// The sum of `amount` over a sequence of keys.
pub open spec fn sum_of<K>(keys: Seq<K>, amount: spec_fn(K) -> nat) -> nat {
    keys.fold_left(0nat, |total: nat, key: K| total + amount(key))
}

/// The sum over a sequence with one more key is the sum over the sequence
/// and the amount of that key.
pub proof fn lemma_sum_of_push<K>(keys: Seq<K>, key: K, amount: spec_fn(K) -> nat)
    ensures
        sum_of(keys.push(key), amount) == sum_of(keys, amount) + amount(key),
{
    assert(keys.push(key).drop_last() =~= keys);
}

/// The sum over the first `count + 1` keys is the sum over the first `count`
/// and the amount of the next.
pub proof fn lemma_sum_of_next<K>(keys: Seq<K>, count: int, amount: spec_fn(K) -> nat)
    requires
        0 <= count < keys.len(),
    ensures
        sum_of(keys.take(count + 1), amount) == sum_of(keys.take(count), amount) + amount(
            keys[count],
        ),
{
    assert(keys.take(count + 1) =~= keys.take(count).push(keys[count]));
    lemma_sum_of_push(keys.take(count), keys[count], amount);
}

/// Summing over a set comes to the same as summing over any sequence that
/// lists each of its elements once.
pub proof fn lemma_sum_over_listing<K>(keys: Seq<K>, amount: spec_fn(K) -> nat)
    requires
        keys.no_duplicates(),
    ensures
        sum_over(keys.to_set(), amount) == sum_of(keys, amount),
    decreases keys.len(),
{
    let add = |total: nat, key: K| total + amount(key);
    if keys.len() == 0 {
        assert(keys.to_set() =~= Set::<K>::empty());
        vstd::set::fold::lemma_fold_empty(0nat, add);
    } else {
        let rest = keys.drop_last();
        let last = keys.last();
        lemma_sum_over_listing(rest, amount);
        assert(rest.to_set().finite()) by {
            vstd::seq_lib::seq_to_set_is_finite(rest);
        }
        assert(!rest.to_set().contains(last)) by {
            if rest.to_set().contains(last) {
                let place = choose|place: int| 0 <= place < rest.len() && rest[place] == last;
                assert(keys[place] == keys[keys.len() - 1]);
            }
        }
        assert(keys.to_set() =~= rest.to_set().insert(last)) by {
            assert forall|key: K| keys.to_set().contains(key) implies rest.to_set().insert(
                last,
            ).contains(key) by {
                let place = choose|place: int| 0 <= place < keys.len() && keys[place] == key;
                if place < keys.len() - 1 {
                    assert(rest[place] == key);
                }
            }
            assert forall|key: K| rest.to_set().insert(last).contains(key) implies keys.to_set().contains(
                key,
            ) by {
                if key == last {
                    assert(keys[keys.len() - 1] == key);
                } else {
                    let place = choose|place: int| 0 <= place < rest.len() && rest[place] == key;
                    assert(keys[place] == key);
                }
            }
        }
        assert(vstd::set::fold::is_fun_commutative(add));
        vstd::set::fold::lemma_fold_insert(rest.to_set(), 0nat, add, last);
    }
}

} // verus!
