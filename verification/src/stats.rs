//! Reducing a result store to summary statistics.
//!
//! Unset and failed slots count as failures. The slots that hold a latency
//! give the number of successes, their average (rounded down) and their
//! maximum; without any success both are zero.

use crate::store::{is_latency, outcome_of, unset_store, Outcome};
use std::time::Duration;
use vstd::prelude::*;

verus! {

/// Summary of a result store, latencies in microseconds.
#[derive(Clone, Copy, Debug, PartialEq, Eq, Structural)]
pub struct AggregateStats {
    /// Average latency of the successful requests, zero without any.
    pub average: u32,
    /// Number of requests that failed or were never attempted.
    pub failures: u32,
    /// Largest latency of a successful request, zero without any.
    pub max: u32,
}

/// The whole microseconds that a duration spans, as `Duration::as_micros`
/// reports them.
pub uninterp spec fn duration_micros(d: Duration) -> nat;

/// The duration that `Duration::from_micros` builds from a number of
/// microseconds.
pub uninterp spec fn micros_duration(micros: u64) -> Duration;

/// `Duration::from_micros` of the standard library: what it builds depends
/// on the microseconds it was given alone, and spans exactly those
/// microseconds.
pub assume_specification[ Duration::from_micros ](micros: u64) -> (d: Duration)
    ensures
        d == micros_duration(micros),
        duration_micros(d) == micros,
;

/// Number of slots that hold a latency.
pub open spec fn success_count(store: Seq<u32>) -> nat
    decreases store.len(),
{
    if store.len() == 0 {
        0
    } else {
        success_count(store.drop_last()) + if is_latency(store.last()) { 1nat } else { 0nat }
    }
}

/// Number of slots that are unset or hold the failure marker.
pub open spec fn failure_count(store: Seq<u32>) -> nat
    decreases store.len(),
{
    if store.len() == 0 {
        0
    } else {
        failure_count(store.drop_last()) + if is_latency(store.last()) { 0nat } else { 1nat }
    }
}

/// Sum of the latencies held in the store.
pub open spec fn latency_sum(store: Seq<u32>) -> nat
    decreases store.len(),
{
    if store.len() == 0 {
        0
    } else {
        latency_sum(store.drop_last()) + if is_latency(store.last()) {
            store.last() as nat
        } else {
            0nat
        }
    }
}

/// Largest latency held in the store, zero if it holds none.
pub open spec fn latency_max(store: Seq<u32>) -> nat
    decreases store.len(),
{
    if store.len() == 0 {
        0
    } else {
        let before = latency_max(store.drop_last());
        if is_latency(store.last()) && store.last() > before {
            store.last() as nat
        } else {
            before
        }
    }
}

/// Average latency of the successes, rounded down; zero without successes.
pub open spec fn latency_average(store: Seq<u32>) -> nat {
    if success_count(store) > 0 {
        latency_sum(store) / success_count(store)
    } else {
        0
    }
}

/// The statistics of a store, as mathematical integers:
/// average, failures, maximum.
pub open spec fn stats_of(store: Seq<u32>) -> (nat, nat, nat) {
    (latency_average(store), failure_count(store), latency_max(store))
}

impl AggregateStats {
    /// Whether these are the statistics of the given store.
    pub open spec fn summarises(self, store: Seq<u32>) -> bool {
        stats_of(store) == (self.average as nat, self.failures as nat, self.max as nat)
    }
}

/// Whether the triple of average, failures and maximum is the statistics of
/// the given store.
pub open spec fn triple_summarises(triple: (Duration, u32, Duration), store: Seq<u32>) -> bool {
    stats_of(store) == (duration_micros(triple.0), triple.1 as nat, duration_micros(triple.2))
}

/// Reducing an unchanged store twice gives the same statistics twice.
pub proof fn lemma_stats_repeatable(store: Seq<u32>, first: AggregateStats, second: AggregateStats)
    requires
        first.summarises(store),
        second.summarises(store),
    ensures
        first == second,
{
}

/// The statistics of a store as a triple of average, failures and maximum,
/// the two latencies as the durations built from their microseconds.
pub open spec fn average_triple(store: Seq<u32>) -> (Duration, u32, Duration) {
    (
        micros_duration(latency_average(store) as u64),
        failure_count(store) as u32,
        micros_duration(latency_max(store) as u64),
    )
}

/// Reducing an unchanged store twice to a triple gives the same triple
/// twice.
pub proof fn lemma_average_repeatable(
    store: Seq<u32>,
    first: (Duration, u32, Duration),
    second: (Duration, u32, Duration),
)
    requires
        first == average_triple(store),
        second == average_triple(store),
    ensures
        first == second,
{
}

/// Every slot counts either as a success or as a failure.
pub proof fn lemma_counts_partition_store(store: Seq<u32>)
    ensures
        success_count(store) + failure_count(store) == store.len(),
    decreases store.len(),
{
    if store.len() > 0 {
        lemma_counts_partition_store(store.drop_last());
    }
}

/// The maximum bounds every latency in the store, is itself one of them
/// whenever there is a success, and is zero otherwise.
pub proof fn lemma_latency_max_is_max(store: Seq<u32>)
    ensures
        forall|i: int|
            0 <= i < store.len() && is_latency(#[trigger] store[i]) ==> store[i] <= latency_max(
                store,
            ),
        success_count(store) == 0 ==> latency_max(store) == 0,
        success_count(store) > 0 ==> exists|i: int|
            0 <= i < store.len() && is_latency(#[trigger] store[i]) && store[i] == latency_max(
                store,
            ),
        latency_max(store) <= u32::MAX,
    decreases store.len(),
{
    if store.len() > 0 {
        let front = store.drop_last();
        let last = store.len() - 1;
        lemma_latency_max_is_max(front);
        assert forall|i: int| 0 <= i < store.len() && is_latency(#[trigger] store[i]) implies
            store[i] <= latency_max(store) by {
            if i < last {
                assert(front[i] == store[i]);
            }
        }
        if success_count(store) > 0 {
            if is_latency(store.last()) && store.last() > latency_max(front) {
                assert(is_latency(store[last]) && store[last] == latency_max(store));
            } else {
                if success_count(front) == 0 {
                    assert(is_latency(store[last]) && store[last] == latency_max(store));
                } else {
                    let i = choose|i: int|
                        0 <= i < front.len() && is_latency(#[trigger] front[i]) && front[i]
                            == latency_max(front);
                    assert(is_latency(store[i]) && store[i] == latency_max(store));
                }
            }
        }
    }
}

/// The sum of the latencies is at most their number times their maximum, so
/// the average never exceeds the maximum.
pub proof fn lemma_average_at_most_max(store: Seq<u32>)
    ensures
        latency_sum(store) <= success_count(store) * latency_max(store),
        latency_average(store) <= latency_max(store),
    decreases store.len(),
{
    let n = success_count(store);
    let m = latency_max(store);
    if store.len() > 0 {
        let front = store.drop_last();
        lemma_average_at_most_max(front);
        let n0 = success_count(front);
        let m0 = latency_max(front);
        assert(m0 <= m);
        assert(n0 * m0 <= n0 * m) by (nonlinear_arith)
            requires
                m0 <= m,
        ;
        if is_latency(store.last()) {
            assert((n0 + 1) * m == n0 * m + m) by (nonlinear_arith);
        }
    } else {
        assert(0 * m == 0) by (nonlinear_arith);
    }
    if n > 0 {
        let s = latency_sum(store);
        assert(s / n <= m) by (nonlinear_arith)
            requires
                s <= n * m,
                n > 0,
        ;
    }
}

/// A store in which nothing succeeded has zero average and zero maximum, and
/// as many failures as slots.
pub proof fn lemma_no_success_stats(store: Seq<u32>)
    requires
        forall|i: int| 0 <= i < store.len() ==> !is_latency(#[trigger] store[i]),
    ensures
        stats_of(store) == (0nat, store.len(), 0nat),
    decreases store.len(),
{
    if store.len() > 0 {
        let front = store.drop_last();
        assert forall|i: int| 0 <= i < front.len() implies !is_latency(#[trigger] front[i]) by {
            assert(front[i] == store[i]);
        }
        lemma_no_success_stats(front);
        assert(!is_latency(store[store.len() - 1]));
    }
}

/// A store in which every request succeeded with the same latency has that
/// latency as average and maximum, and no failure.
pub proof fn lemma_uniform_success_stats(store: Seq<u32>, latency: u32)
    requires
        is_latency(latency),
        store.len() > 0,
        forall|i: int| 0 <= i < store.len() ==> #[trigger] store[i] == latency,
    ensures
        stats_of(store) == (latency as nat, 0nat, latency as nat),
        latency_sum(store) == store.len() * latency,
        success_count(store) == store.len(),
    decreases store.len(),
{
    let front = store.drop_last();
    let n = store.len();
    let k = front.len();
    assert(store.last() == latency);
    if k > 0 {
        assert forall|i: int| 0 <= i < front.len() implies #[trigger] front[i] == latency by {
            assert(front[i] == store[i]);
        }
        lemma_uniform_success_stats(front, latency);
    } else {
        assert(k * latency == 0) by (nonlinear_arith)
            requires
                k == 0,
        ;
    }
    assert(latency_sum(front) == k * latency);
    assert(success_count(front) == k);
    assert(failure_count(front) == 0);
    assert(latency_max(front) <= latency);
    assert(k * latency + latency == n * latency) by (nonlinear_arith)
        requires
            n == k + 1,
    ;
    assert(latency_sum(store) == n * latency);
    assert(success_count(store) == n);
    assert((n * latency) / (n as int) == latency) by (nonlinear_arith)
        requires
            n > 0,
    ;
}

/// The statistics of an empty store: zero average, no failure, zero maximum.
pub proof fn lemma_empty_store_stats()
    ensures
        stats_of(Seq::<u32>::empty()) == (0nat, 0nat, 0nat),
{
}

/// The statistics of a store that no worker has written yet.
pub proof fn lemma_unset_store_stats(total: nat)
    ensures
        stats_of(unset_store(total)) == (0nat, total, 0nat),
{
    lemma_no_success_stats(unset_store(total));
}

/// Reduces the store to its statistics. Does not change the store, and may
/// be called while workers are still filling it.
pub fn compute_stats(times: &Vec<u32>) -> (stats: AggregateStats)
    requires
        times.len() <= u32::MAX,
    ensures
        stats.summarises(times@),
{
    let mut total: u64 = 0;
    let mut successes: u32 = 0;
    let mut fails: u32 = 0;
    let mut max: u32 = 0;
    let mut i: usize = 0;
    while i < times.len()
        invariant
            i <= times.len(),
            times.len() <= u32::MAX,
            successes == success_count(times@.take(i as int)),
            fails == failure_count(times@.take(i as int)),
            total == latency_sum(times@.take(i as int)),
            max == latency_max(times@.take(i as int)),
            successes + fails == i,
            total <= i * 0xFFFF_FFFF,
        decreases times.len() - i,
    {
        proof {
            assert(times@.take(i + 1).drop_last() =~= times@.take(i as int));
            assert((i + 1) * 0xFFFF_FFFF == i * 0xFFFF_FFFF + 0xFFFF_FFFF) by (nonlinear_arith);
            assert(i * 0xFFFF_FFFF <= 0xFFFF_FFFF * 0xFFFF_FFFF) by (nonlinear_arith)
                requires
                    i <= 0xFFFF_FFFF,
            ;
        }
        match outcome_of(times[i]) {
            Outcome::Latency(time) => {
                successes = successes + 1;
                total = total + time as u64;
                if time > max {
                    max = time;
                }
            },
            _ => {
                fails = fails + 1;
            },
        }
        i = i + 1;
    }
    proof {
        assert(times@.take(i as int) =~= times@);
        lemma_average_at_most_max(times@);
    }
    let average: u32 = if successes > 0 {
        (total / successes as u64) as u32
    } else {
        0
    };
    AggregateStats { average, failures: fails, max }
}

/// Average latency of the successful requests, number of failures, and
/// largest latency of a successful request.
pub fn get_average(times: &Vec<u32>) -> (result: (Duration, u32, Duration))
    requires
        times.len() <= u32::MAX,
    ensures
        result == average_triple(times@),
        triple_summarises(result, times@),
{
    let stats = compute_stats(times);
    let average_value = Duration::from_micros(stats.average as u64);
    let max = Duration::from_micros(stats.max as u64);
    (average_value, stats.failures, max)
}

} // verus!
