//! Lists of numbers.

use vstd::prelude::*;

verus! {

/// The numbers in ascending order.
pub open spec fn in_order(s: Seq<u64>) -> Seq<u64> {
    s.sort_by(|a: u64, b: u64| a <= b)
}

/// `sort_unstable` on a slice of numbers puts them in ascending order and keeps each as often
/// as it was there.
#[verifier::external_body]
fn sort_unstable(v: &mut Vec<u64>)
    ensures
        final(v)@.to_multiset() == old(v)@.to_multiset(),
        forall|i: int, j: int| 0 <= i < j < final(v)@.len() ==> final(v)@[i] <= final(v)@[j],
{
    v.sort_unstable();
}

/// Puts numbers in ascending order.
pub fn sort_numbers(v: &mut Vec<u64>)
    ensures
        final(v)@ == in_order(old(v)@),
        final(v)@.len() == old(v)@.len(),
{
    let ghost before = v@;
    sort_unstable(v);
    proof {
        let leq = |a: u64, b: u64| a <= b;
        lemma_in_order(before);
        assert(vstd::relations::sorted_by(v@, leq));
        vstd::seq_lib::lemma_sorted_unique(v@, in_order(before), leq);
    }
}

/// Putting numbers in order keeps their number, and orders them.
pub proof fn lemma_in_order(s: Seq<u64>)
    ensures
        in_order(s).len() == s.len(),
        in_order(s).to_multiset() == s.to_multiset(),
        vstd::relations::sorted_by(in_order(s), |a: u64, b: u64| a <= b),
        vstd::relations::total_ordering(|a: u64, b: u64| a <= b),
{
    broadcast use vstd::seq_lib::group_to_multiset_ensures;

    let leq = |a: u64, b: u64| a <= b;
    assert(vstd::relations::total_ordering(leq));
    s.lemma_sort_by_ensures(leq);
    assert(in_order(s).to_multiset().len() == s.to_multiset().len());
}

/// Numbers that ascend are in order.
pub proof fn lemma_in_order_already(s: Seq<u64>)
    requires
        forall|i: int, j: int| 0 <= i < j < s.len() ==> s[i] <= s[j],
    ensures
        in_order(s) == s,
{
    let leq = |a: u64, b: u64| a <= b;
    lemma_in_order(s);
    assert(vstd::relations::sorted_by(s, leq));
    vstd::seq_lib::lemma_sorted_unique(s, in_order(s), leq);
}

/// In order, it does not matter which of two lists came first.
pub proof fn lemma_in_order_swap(base: Seq<u64>, x: Seq<u64>, y: Seq<u64>)
    ensures
        in_order(base + x + y) == in_order(base + y + x),
{
    broadcast use vstd::seq_lib::group_to_multiset_ensures;

    let a = base + x + y;
    let b = base + y + x;
    vstd::seq_lib::lemma_multiset_commutative(base + x, y);
    vstd::seq_lib::lemma_multiset_commutative(base, x);
    vstd::seq_lib::lemma_multiset_commutative(base + y, x);
    vstd::seq_lib::lemma_multiset_commutative(base, y);
    assert(a.to_multiset() =~= b.to_multiset());
    lemma_in_order(a);
    lemma_in_order(b);
    vstd::seq_lib::lemma_sorted_unique(in_order(a), in_order(b), |p: u64, q: u64| p <= q);
}

/// The sum of numbers.
pub open spec fn sum_of(numbers: Seq<u64>) -> nat
    decreases numbers.len(),
{
    if numbers.len() == 0 {
        0
    } else {
        sum_of(numbers.drop_last()) + numbers.last() as nat
    }
}

/// Part of a sum is not more than the whole.
pub proof fn lemma_sum_of_take(numbers: Seq<u64>, n: int)
    requires
        0 <= n <= numbers.len(),
    ensures
        sum_of(numbers.take(n)) <= sum_of(numbers),
    decreases numbers.len(),
{
    if n == numbers.len() {
        assert(numbers.take(n) =~= numbers);
    } else {
        lemma_sum_of_take(numbers.drop_last(), n);
        assert(numbers.drop_last().take(n) =~= numbers.take(n));
    }
}

/// A sum is at most as many times the largest number as there are numbers.
pub proof fn lemma_sum_of_bound(numbers: Seq<u64>)
    ensures
        sum_of(numbers) <= numbers.len() * u64::MAX,
    decreases numbers.len(),
{
    if numbers.len() > 0 {
        lemma_sum_of_bound(numbers.drop_last());
        assert((numbers.len() - 1) * u64::MAX + u64::MAX == numbers.len() * u64::MAX)
            by (nonlinear_arith);
    }
}

/// Adds numbers up.
pub fn sum_up(numbers: &Vec<u64>) -> (r: u128)
    requires
        numbers@.len() <= u64::MAX,
    ensures
        r == sum_of(numbers@),
{
    let mut sum: u128 = 0;
    let mut i: usize = 0;
    assert(numbers@.take(0) =~= Seq::<u64>::empty());
    while i < numbers.len()
        invariant
            i <= numbers@.len(),
            numbers@.len() <= u64::MAX,
            sum == sum_of(numbers@.take(i as int)),
        decreases numbers@.len() - i,
    {
        proof {
            let part = numbers@.take(i + 1);
            lemma_sum_of_bound(part);
            assert(part.drop_last() =~= numbers@.take(i as int));
            assert(part.len() * u64::MAX <= u64::MAX * u64::MAX) by (nonlinear_arith)
                requires
                    part.len() <= u64::MAX,
            ;
        }
        sum = sum + numbers[i] as u128;
        i = i + 1;
    }
    assert(numbers@.take(i as int) =~= numbers@);
    sum
}

/// A number adds itself to a sum, and the sum of two lists is the sum of both.
pub proof fn law_sums_add_up(a: Seq<u64>, b: Seq<u64>, n: u64)
    ensures
        sum_of(seq![n]) == n,
        sum_of(a + b) == sum_of(a) + sum_of(b),
    decreases b.len(),
{
    assert(seq![n].drop_last() =~= Seq::<u64>::empty());
    assert(sum_of(seq![n].drop_last()) == 0);
    if b.len() == 0 {
        assert(a + b =~= a);
    } else {
        law_sums_add_up(a, b.drop_last(), n);
        assert((a + b).drop_last() =~= a + b.drop_last());
    }
}

/// Numbers in order are the numbers that were there, each as often, and none before a smaller one.
pub proof fn law_numbers_in_order(s: Seq<u64>, i: int, j: int)
    ensures
        in_order(s).to_multiset() == s.to_multiset(),
        0 <= i <= j < s.len() ==> in_order(s)[i] <= in_order(s)[j],
{
    lemma_in_order(s);
    let leq = |a: u64, b: u64| a <= b;
    if 0 <= i < j < s.len() {
        assert(leq(in_order(s)[i], in_order(s)[j]));
    }
}

} // verus!
