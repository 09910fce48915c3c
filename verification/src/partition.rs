//! Splitting `total` request indices over `workers` contiguous ranges.
//!
//! Every worker gets `total / workers` indices; the first `total % workers`
//! workers get one more. Ranges follow each other in worker order without
//! gaps, so together they cover `[0, total)` exactly once.

use vstd::prelude::*;

verus! {

/// The range of request indices `[start, start + len)` owned by one worker.
#[derive(Clone, Copy, Debug, PartialEq, Eq, Structural)]
pub struct Partition {
    pub start: u32,
    pub len: u32,
}

/// Number of indices given to worker `i`.
pub open spec fn part_len(total: nat, workers: nat, i: nat) -> nat {
    total / workers + if i < total % workers { 1nat } else { 0nat }
}

/// First index given to worker `i`.
pub open spec fn part_start(total: nat, workers: nat, i: nat) -> nat {
    i * (total / workers) + if i < total % workers { i } else { total % workers }
}

/// One past the last index given to worker `i`.
pub open spec fn part_end(total: nat, workers: nat, i: nat) -> nat {
    part_start(total, workers, i) + part_len(total, workers, i)
}

/// Whether request index `k` is one of those given to worker `i`.
pub open spec fn owns(total: nat, workers: nat, i: nat, k: nat) -> bool {
    part_start(total, workers, i) <= k < part_end(total, workers, i)
}

/// Sum of the lengths of the first `k` partitions.
pub open spec fn lengths_before(total: nat, workers: nat, k: nat) -> nat
    decreases k,
{
    if k == 0 {
        0
    } else {
        lengths_before(total, workers, (k - 1) as nat) + part_len(total, workers, (k - 1) as nat)
    }
}

/// Each range starts where the previous one ends, the first at index 0.
pub proof fn lemma_partitions_contiguous(total: nat, workers: nat, i: nat)
    requires
        workers >= 1,
    ensures
        part_start(total, workers, 0) == 0,
        part_start(total, workers, i + 1) == part_end(total, workers, i),
{
    let q = total / workers;
    assert((i + 1) * q == i * q + q) by (nonlinear_arith);
    assert(0 * q == 0) by (nonlinear_arith);
}

/// The range that would follow the last worker's starts at `total`: the
/// ranges of workers `0..workers` end exactly at `total`.
pub proof fn lemma_partitions_reach_total(total: nat, workers: nat)
    requires
        workers >= 1,
    ensures
        part_start(total, workers, workers) == total,
{
    let q = total / workers;
    let r = total % workers;
    assert(total == workers * q + r && r < workers) by (nonlinear_arith)
        requires
            workers >= 1,
            q == total / workers,
            r == total % workers,
    ;
}

/// Starts never decrease with the worker index.
pub proof fn lemma_start_monotonic(total: nat, workers: nat, i: nat, j: nat)
    requires
        workers >= 1,
        i <= j,
    ensures
        part_start(total, workers, i) <= part_start(total, workers, j),
{
    let q = total / workers;
    assert(i * q <= j * q) by (nonlinear_arith)
        requires
            i <= j,
    ;
}

/// Every range of a real worker lies inside `[0, total)`.
pub proof fn lemma_partition_in_bounds(total: nat, workers: nat, i: nat)
    requires
        workers >= 1,
        i < workers,
    ensures
        part_end(total, workers, i) <= total,
        part_len(total, workers, i) <= total,
{
    lemma_partitions_contiguous(total, workers, i);
    lemma_start_monotonic(total, workers, i + 1, workers);
    lemma_partitions_reach_total(total, workers);
}

/// The lengths of the first `k` ranges add up to the start of range `k`.
pub proof fn lemma_lengths_before_is_start(total: nat, workers: nat, k: nat)
    requires
        workers >= 1,
    ensures
        lengths_before(total, workers, k) == part_start(total, workers, k),
    decreases k,
{
    if k == 0 {
        lemma_partitions_contiguous(total, workers, 0);
    } else {
        lemma_lengths_before_is_start(total, workers, (k - 1) as nat);
        lemma_partitions_contiguous(total, workers, (k - 1) as nat);
    }
}

/// The lengths of all `workers` ranges add up to exactly `total`.
pub proof fn lemma_lengths_sum_to_total(total: nat, workers: nat)
    requires
        workers >= 1,
    ensures
        lengths_before(total, workers, workers) == total,
{
    lemma_lengths_before_is_start(total, workers, workers);
    lemma_partitions_reach_total(total, workers);
}

/// Two different workers never share an index: the range of the earlier
/// worker ends before the range of the later one starts.
pub proof fn lemma_partitions_disjoint(total: nat, workers: nat, i: nat, j: nat)
    requires
        workers >= 1,
        i < j,
    ensures
        part_end(total, workers, i) <= part_start(total, workers, j),
        forall|k: nat| !(#[trigger] owns(total, workers, i, k) && owns(total, workers, j, k)),
{
    lemma_partitions_contiguous(total, workers, i);
    lemma_start_monotonic(total, workers, i + 1, j);
}

/// The first `total % workers` workers get exactly one index more than every
/// other worker, and every other worker gets `total / workers`.
pub proof fn lemma_remainder_goes_first(total: nat, workers: nat, i: nat, j: nat)
    requires
        workers >= 1,
    ensures
        i < total % workers ==> part_len(total, workers, i) == total / workers + 1,
        i >= total % workers ==> part_len(total, workers, i) == total / workers,
        i < total % workers <= j ==> part_len(total, workers, i) == part_len(total, workers, j)
            + 1,
        total % workers < workers,
{
    assert(total % workers < workers) by (nonlinear_arith)
        requires
            workers >= 1,
    ;
}

/// Every index below `total` lies in the range of some worker below `bound`,
/// as soon as range `bound` starts beyond it.
proof fn lemma_owner_below(total: nat, workers: nat, k: nat, bound: nat) -> (i: nat)
    requires
        workers >= 1,
        k < part_start(total, workers, bound),
    ensures
        i < bound,
        owns(total, workers, i, k),
    decreases bound,
{
    lemma_partitions_contiguous(total, workers, 0);
    let prev = (bound - 1) as nat;
    lemma_partitions_contiguous(total, workers, prev);
    if part_start(total, workers, prev) <= k {
        prev
    } else {
        lemma_owner_below(total, workers, k, prev)
    }
}

/// Every request index below `total` belongs to exactly one worker.
pub proof fn lemma_every_index_owned_once(total: nat, workers: nat, k: nat) -> (i: nat)
    requires
        workers >= 1,
        k < total,
    ensures
        i < workers,
        owns(total, workers, i, k),
        forall|j: nat| #[trigger] owns(total, workers, j, k) ==> j == i,
{
    lemma_partitions_reach_total(total, workers);
    let i = lemma_owner_below(total, workers, k, workers);
    assert forall|j: nat| #[trigger] owns(total, workers, j, k) implies j == i by {
        if j < i {
            lemma_partitions_disjoint(total, workers, j, i);
        } else if i < j {
            lemma_partitions_disjoint(total, workers, i, j);
        }
    }
    i
}

/// With more workers than requests, the first `total` workers get one index
/// each and every later worker gets an empty range.
pub proof fn lemma_surplus_workers_idle(total: nat, workers: nat, i: nat)
    requires
        workers > total,
    ensures
        i < total ==> part_len(total, workers, i) == 1 && part_start(total, workers, i) == i,
        i >= total ==> part_len(total, workers, i) == 0,
{
    assert(total / workers == 0 && total % workers == total) by (nonlinear_arith)
        requires
            workers > total,
    ;
    assert(i * 0 == 0) by (nonlinear_arith);
}

/// With no requests at all, every range is empty.
pub proof fn lemma_no_requests_no_work(workers: nat, i: nat)
    requires
        workers >= 1,
    ensures
        part_len(0, workers, i) == 0,
        part_start(0, workers, i) == 0,
{
    lemma_surplus_workers_idle(0, workers, i);
}

/// Computes the range of worker `i` out of `threads` for `number` requests.
pub fn partition(number: u32, threads: u32, i: u32) -> (p: Partition)
    requires
        threads >= 1,
        i < threads,
    ensures
        p.start == part_start(number as nat, threads as nat, i as nat),
        p.len == part_len(number as nat, threads as nat, i as nat),
{
    let number_per_thread: u32 = number / threads;
    let remainder: u32 = number % threads;
    proof {
        lemma_partition_in_bounds(number as nat, threads as nat, i as nat);
        assert(i * number_per_thread >= 0) by (nonlinear_arith);
    }
    let extra: u32 = if i < remainder { 1 } else { 0 };
    let shift: u32 = if i < remainder { i } else { remainder };
    Partition { start: i * number_per_thread + shift, len: number_per_thread + extra }
}

} // verus!
