//! Sums over the values of a map.

use vstd::prelude::*;

verus! {

/// The sum of all values.
pub open spec fn sum_values(m: Map<u64, nat>) -> nat
    decreases m.dom().len(),
    when m.dom().finite()
{
    if m.dom().len() == 0 {
        0
    } else {
        let key = m.dom().choose();
        m[key] + sum_values(m.remove(key))
    }
}

/// Any one value can be taken out of the sum first.
pub proof fn lemma_sum_remove(m: Map<u64, nat>, key: u64)
    requires
        m.dom().finite(),
        m.contains_key(key),
    ensures
        sum_values(m) == m[key] + sum_values(m.remove(key)),
    decreases m.dom().len(),
{
    let first = m.dom().choose();
    if first != key {
        lemma_sum_remove(m.remove(first), key);
        lemma_sum_remove(m.remove(key), first);
        assert(m.remove(first).remove(key) =~= m.remove(key).remove(first));
    }
}

/// What setting a value does to the sum.
pub proof fn lemma_sum_insert(m: Map<u64, nat>, key: u64, value: nat)
    requires
        m.dom().finite(),
    ensures
        m.contains_key(key) ==> sum_values(m.insert(key, value)) + m[key] == sum_values(m) + value,
        !m.contains_key(key) ==> sum_values(m.insert(key, value)) == sum_values(m) + value,
{
    let longer = m.insert(key, value);
    lemma_sum_remove(longer, key);
    if m.contains_key(key) {
        lemma_sum_remove(m, key);
        assert(longer.remove(key) =~= m.remove(key));
    } else {
        assert(longer.remove(key) =~= m);
    }
}

/// The sum of the values of the listed keys.
pub open spec fn sum_listed(m: Map<u64, nat>, keys: Seq<u64>) -> nat
    decreases keys.len(),
{
    if keys.len() == 0 {
        0
    } else {
        sum_listed(m, keys.drop_last()) + m[keys.last()]
    }
}

proof fn lemma_sum_listed_other(m: Map<u64, nat>, key: u64, keys: Seq<u64>)
    requires
        !keys.contains(key),
    ensures
        sum_listed(m.remove(key), keys) == sum_listed(m, keys),
    decreases keys.len(),
{
    if keys.len() > 0 {
        assert(keys.contains(keys.last()));
        assert forall|k: u64| keys.drop_last().contains(k) implies keys.contains(k) by {
            let i = choose|i: int| 0 <= i < keys.drop_last().len() && keys.drop_last()[i] == k;
            assert(keys[i] == k);
        }
        lemma_sum_listed_other(m, key, keys.drop_last());
    }
}

/// A list of all keys, each once, gives the whole sum.
pub proof fn lemma_sum_of_all_keys(m: Map<u64, nat>, keys: Seq<u64>)
    requires
        keys.no_duplicates(),
        keys.to_set() == m.dom(),
    ensures
        m.dom().finite(),
        sum_listed(m, keys) == sum_values(m),
    decreases keys.len(),
{
    keys.unique_seq_to_set();
    if keys.len() > 0 {
        let last = keys.last();
        let front = keys.drop_last();
        assert(keys[keys.len() - 1] == last);
        assert(keys.contains(last));
        assert(m.contains_key(last));
        assert(!front.contains(last)) by {
            if front.contains(last) {
                let i = choose|i: int| 0 <= i < front.len() && front[i] == last;
                assert(keys[i] == last);
            }
        }
        assert(front.to_set() =~= m.remove(last).dom()) by {
            assert forall|k: u64| front.to_set().contains(k) == m.remove(last).dom().contains(
                k,
            ) by {
                if front.contains(k) {
                    let i = choose|i: int| 0 <= i < front.len() && front[i] == k;
                    assert(keys[i] == k);
                    assert(keys.contains(k));
                }
                if m.contains_key(k) && k != last {
                    assert(keys.to_set().contains(k));
                    let i = choose|i: int| 0 <= i < keys.len() && keys[i] == k;
                    assert(front[i] == k);
                }
            }
        }
        lemma_sum_of_all_keys(m.remove(last), front);
        lemma_sum_listed_other(m, last, front);
        lemma_sum_remove(m, last);
    }
}

/// Part of a sum is not more than the whole.
pub proof fn lemma_sum_listed_take(m: Map<u64, nat>, keys: Seq<u64>, n: int)
    requires
        0 <= n <= keys.len(),
    ensures
        sum_listed(m, keys.take(n)) <= sum_listed(m, keys),
    decreases keys.len(),
{
    if n == keys.len() {
        assert(keys.take(n) =~= keys);
    } else {
        lemma_sum_listed_take(m, keys.drop_last(), n);
        assert(keys.drop_last().take(n) =~= keys.take(n));
    }
}

} // verus!
