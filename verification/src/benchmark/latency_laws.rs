//! What latencies say of the samples that they were made of.

use crate::benchmark::api::stats_of;
use crate::numbers::{in_order, lemma_in_order, lemma_sum_of_bound, sum_of};
use vstd::multiset::Multiset;
use vstd::prelude::*;

verus! {

/// How many samples are no longer than a time.
pub open spec fn within(samples: Seq<u64>, time: u64) -> nat
    decreases samples.len(),
{
    if samples.len() == 0 {
        0
    } else {
        within(samples.drop_last(), time) + if samples.last() <= time {
            1nat
        } else {
            0
        }
    }
}

proof fn lemma_within_multiset(samples: Seq<u64>, time: u64)
    ensures
        within(samples, time) == samples.to_multiset().filter(|x: u64| x <= time).len(),
    decreases samples.len(),
{
    broadcast use vstd::multiset::group_multiset_axioms;

    let f = |x: u64| x <= time;
    if samples.len() == 0 {
        assert(samples.to_multiset() =~= Multiset::<u64>::empty()) by {
            samples.to_multiset_ensures();
        }
        assert(samples.to_multiset().filter(f) =~= Multiset::<u64>::empty());
    } else {
        let front = samples.drop_last();
        let last = samples.last();
        lemma_within_multiset(front, time);
        assert(samples =~= front.push(last));
        vstd::seq_lib::to_multiset_build(front, last);
        if last <= time {
            assert(samples.to_multiset().filter(f) =~= front.to_multiset().filter(f).insert(last));
        } else {
            assert(samples.to_multiset().filter(f) =~= front.to_multiset().filter(f));
        }
    }
}

proof fn lemma_within_sorted(sorted: Seq<u64>, time: u64, n: int)
    requires
        0 <= n <= sorted.len(),
    ensures
        (forall|i: int| 0 <= i < n ==> #[trigger] sorted[i] <= time) ==> within(sorted, time) >= n,
        (forall|i: int| n <= i < sorted.len() ==> #[trigger] sorted[i] > time) ==> within(
            sorted,
            time,
        ) <= n,
    decreases sorted.len(),
{
    if sorted.len() > 0 {
        let front = sorted.drop_last();
        if n == sorted.len() {
            lemma_within_sorted(front, time, n - 1);
        } else {
            lemma_within_sorted(front, time, n);
        }
        assert(forall|i: int| 0 <= i < front.len() ==> #[trigger] front[i] == sorted[i]);
        assert(sorted.last() == sorted[sorted.len() - 1]);
    }
}

/// The value at a place among the samples in order is the least time within which more samples
/// lie than the place says.
proof fn lemma_rank(samples: Seq<u64>, place: int, time: u64)
    requires
        0 <= place < samples.len(),
    ensures
        within(samples, in_order(samples)[place]) > place,
        time < in_order(samples)[place] ==> within(samples, time) <= place,
{
    let sorted = in_order(samples);
    lemma_in_order(samples);
    let leq = |a: u64, b: u64| a <= b;
    lemma_within_multiset(samples, sorted[place]);
    lemma_within_multiset(sorted, sorted[place]);
    lemma_within_multiset(samples, time);
    lemma_within_multiset(sorted, time);
    assert forall|i: int| 0 <= i < place + 1 implies #[trigger] sorted[i] <= sorted[place] by {
        if i < place {
            assert(leq(sorted[i], sorted[place]));
        }
    }
    lemma_within_sorted(sorted, sorted[place], place + 1);
    if time < sorted[place] {
        assert forall|i: int| place <= i < sorted.len() implies #[trigger] sorted[i] > time by {
            if i > place {
                assert(leq(sorted[place], sorted[i]));
            }
        }
        lemma_within_sorted(sorted, time, place);
    }
}

/// What the latencies of samples are, said of the samples themselves. More than half of them, or
/// 99 of 100, are within the percentile, and within no shorter time; none is longer than the
/// largest, and all are within no shorter time.
pub proof fn law_latencies_tell_of_the_samples(samples: Seq<u64>, time: u64)
    requires
        0 < samples.len() <= u64::MAX,
    ensures
        ({
            let stats = stats_of(samples);
            let len = samples.len() as int;
            &&& within(samples, stats.p50_us) > len * 50 / 100
            &&& time < stats.p50_us ==> within(samples, time) <= len * 50 / 100
            &&& within(samples, stats.p99_us) > len * 99 / 100
            &&& time < stats.p99_us ==> within(samples, time) <= len * 99 / 100
            &&& within(samples, stats.max_us) == len
            &&& time < stats.max_us ==> within(samples, time) < len
            &&& stats.samples == len
        }),
{
    let len = samples.len() as int;
    lemma_rank(samples, len * 50 / 100, time);
    lemma_rank(samples, len * 99 / 100, time);
    lemma_rank(samples, len - 1, time);
    lemma_within_at_most(samples, stats_of(samples).max_us);
}

proof fn lemma_within_at_most(samples: Seq<u64>, time: u64)
    ensures
        within(samples, time) <= samples.len(),
    decreases samples.len(),
{
    if samples.len() > 0 {
        lemma_within_at_most(samples.drop_last(), time);
    }
}

/// The mean shares the sum of the samples among them, rounded down.
pub proof fn law_mean_shares_the_sum(samples: Seq<u64>)
    requires
        0 < samples.len() <= u64::MAX,
    ensures
        stats_of(samples).mean_us * samples.len() <= sum_of(samples),
        sum_of(samples) < (stats_of(samples).mean_us + 1) * samples.len(),
{
    let sum = sum_of(samples) as int;
    let len = samples.len() as int;
    lemma_sum_of_bound(samples);
    assert(0 <= sum / len <= u64::MAX) by (nonlinear_arith)
        requires
            0 <= sum <= len * u64::MAX,
            len > 0,
    ;
    assert((sum / len) * len <= sum < (sum / len + 1) * len) by (nonlinear_arith)
        requires
            len > 0,
    ;
}

proof fn lemma_within_grows(a: Seq<u64>, b: Seq<u64>, time: u64)
    requires
        a.len() == b.len(),
        forall|i: int| 0 <= i < a.len() ==> #[trigger] a[i] <= b[i],
    ensures
        within(b, time) <= within(a, time),
        sum_of(a) <= sum_of(b),
    decreases a.len(),
{
    if a.len() > 0 {
        assert forall|i: int| 0 <= i < a.len() - 1 implies #[trigger] a.drop_last()[i]
            <= b.drop_last()[i] by {
            assert(a[i] <= b[i]);
        }
        lemma_within_grows(a.drop_last(), b.drop_last(), time);
        assert(a[a.len() - 1] <= b[a.len() - 1]);
    }
}

/// Operations that each take no longer than others have no longer latencies.
pub proof fn law_shorter_times_give_shorter_latencies(a: Seq<u64>, b: Seq<u64>)
    requires
        a.len() == b.len(),
        a.len() <= u64::MAX,
        forall|i: int| 0 <= i < a.len() ==> #[trigger] a[i] <= b[i],
    ensures
        stats_of(a).p50_us <= stats_of(b).p50_us,
        stats_of(a).p99_us <= stats_of(b).p99_us,
        stats_of(a).max_us <= stats_of(b).max_us,
        stats_of(a).mean_us <= stats_of(b).mean_us,
        stats_of(a).samples == stats_of(b).samples,
{
    let len = a.len() as int;
    if len > 0 {
        let s = stats_of(b);
        law_latencies_tell_of_the_samples(a, s.p50_us);
        law_latencies_tell_of_the_samples(a, s.p99_us);
        law_latencies_tell_of_the_samples(a, s.max_us);
        law_latencies_tell_of_the_samples(b, 0);
        lemma_within_grows(a, b, s.p50_us);
        lemma_within_grows(a, b, s.p99_us);
        lemma_within_grows(a, b, s.max_us);
        law_mean_shares_the_sum(a);
        law_mean_shares_the_sum(b);
        let (x, y) = (stats_of(a).mean_us as int, s.mean_us as int);
        assert(x <= y) by (nonlinear_arith)
            requires
                x * len < (y + 1) * len,
                len > 0,
        ;
    }
}

} // verus!
