//! A whole run, seen as the sequence of steps that its workers take.
//!
//! The workers of a run take their steps in any order. A step is either a
//! worker asking what to do next, having read the cancellation flag, or a
//! worker recording the result of the request it was handed. The state of
//! the run is the store together with the states of the workers. This
//! module says what holds in every state that a run can reach.

use crate::partition::{
    lemma_every_index_owned_once,
    lemma_partition_in_bounds,
    lemma_partitions_disjoint,
    lemma_surplus_workers_idle,
    owns,
    part_len,
    part_start,
};
use crate::stats::{lemma_unset_store_stats, stats_of};
use crate::store::{
    attempt_slot,
    filled,
    lemma_filled_bounds,
    lemma_filled_update,
    lemma_unset_store_is_empty,
    unset_store,
    UNSET,
};
use crate::worker::{active_workers, fresh_workers, WorkerState};
use vstd::prelude::*;

verus! {

/// The store and the workers of a run at one moment.
pub struct RunState {
    pub store: Seq<u32>,
    pub workers: Seq<WorkerState>,
}

/// One step of one worker.
pub enum RunEvent {
    /// The worker asks what to do next; it has read the cancellation flag
    /// as `cancelled`.
    Poll { worker: int, cancelled: bool },
    /// The worker records the result of the request it was handed.
    Record { worker: int, success: bool, elapsed_micros: u128 },
}

impl RunEvent {
    /// Whether the step is a worker asking while the run is not cancelled.
    pub open spec fn polls_uncancelled(self) -> bool {
        self matches RunEvent::Poll { cancelled, .. } && !cancelled
    }

    /// Whether the step is a worker asking while the run is cancelled.
    pub open spec fn polls_cancelled(self) -> bool {
        self matches RunEvent::Poll { cancelled, .. } && cancelled
    }
}

/// The run before any worker has taken a step.
pub open spec fn start_of_run(total: nat, workers: nat) -> RunState {
    RunState { store: unset_store(total), workers: fresh_workers(total, workers) }
}

/// The run after one more step. A step of a worker that does not exist
/// changes nothing.
pub open spec fn step(s: RunState, e: RunEvent) -> RunState {
    match e {
        RunEvent::Poll { worker, cancelled } => if 0 <= worker < s.workers.len() {
            RunState {
                store: s.store,
                workers: s.workers.update(worker, s.workers[worker].after_poll(cancelled)),
            }
        } else {
            s
        },
        RunEvent::Record { worker, success, elapsed_micros } => if 0 <= worker
            < s.workers.len() {
            RunState {
                store: s.workers[worker].store_after_record(
                    s.store,
                    attempt_slot(success, elapsed_micros),
                ),
                workers: s.workers.update(
                    worker,
                    s.workers[worker].after_record(s.store.len()),
                ),
            }
        } else {
            s
        },
    }
}

/// The run after the given steps, taken in order.
pub open spec fn run(s: RunState, events: Seq<RunEvent>) -> RunState
    decreases events.len(),
{
    if events.len() == 0 {
        s
    } else {
        step(run(s, events.drop_last()), events.last())
    }
}

/// Worker `i` is well formed, sits at position `i` and owns range `i`.
pub open spec fn worker_in_place(s: RunState, i: int, total: nat, workers: nat) -> bool {
    let w = s.workers[i];
    &&& w.wf()
    &&& w.id == i
    &&& w.start == part_start(total, workers, i as nat)
    &&& w.len == part_len(total, workers, i as nat)
}

/// Every slot that worker `i` has still to record is unset.
pub open spec fn pending_unset(s: RunState, i: int) -> bool {
    forall|k: int|
        s.workers[i].next_index() <= k < s.workers[i].end() ==> #[trigger] s.store[k] == UNSET
}

/// Every slot that worker `i` has recorded holds a latency or the failure
/// marker.
pub open spec fn recorded_set(s: RunState, i: int) -> bool {
    forall|k: int|
        s.workers[i].start <= k < s.workers[i].next_index() ==> #[trigger] s.store[k] != UNSET
}

/// What holds in every state of a run of `total` requests over `workers`
/// workers: the store has `total` slots, there is one worker for each range
/// that is not empty, every slot whose request has been recorded holds a
/// latency or the failure marker, and every slot whose request is still to
/// be recorded is unset.
pub open spec fn consistent(s: RunState, total: nat, workers: nat) -> bool {
    &&& s.store.len() == total
    &&& s.workers.len() == active_workers(total, workers)
    &&& forall|i: int|
        0 <= i < s.workers.len() ==> #[trigger] worker_in_place(s, i, total, workers)
    &&& forall|i: int| 0 <= i < s.workers.len() ==> #[trigger] pending_unset(s, i)
    &&& forall|i: int| 0 <= i < s.workers.len() ==> #[trigger] recorded_set(s, i)
}

/// Slot `k` has been recorded: its owner has moved past it.
pub open spec fn settled(s: RunState, k: int) -> bool {
    exists|i: int|
        0 <= i < s.workers.len() && (#[trigger] s.workers[i]).start <= k
            < s.workers[i].next_index()
}

/// A run starts in a consistent state.
pub proof fn lemma_start_consistent(total: nat, workers: nat)
    requires
        workers >= 1,
    ensures
        consistent(start_of_run(total, workers), total, workers),
{
    let s = start_of_run(total, workers);
    assert forall|i: int| 0 <= i < s.workers.len() implies #[trigger] worker_in_place(
        s,
        i,
        total,
        workers,
    ) by {}
    assert forall|i: int| 0 <= i < s.workers.len() implies #[trigger] pending_unset(s, i) by {
        lemma_partition_in_bounds(total, workers, i as nat);
    }
    assert forall|i: int| 0 <= i < s.workers.len() implies #[trigger] recorded_set(s, i) by {}
}

/// The ranges of the workers of a consistent run lie inside the store and
/// do not overlap.
pub proof fn lemma_ranges_apart(s: RunState, total: nat, workers: nat, i: int, j: int)
    requires
        workers >= 1,
        consistent(s, total, workers),
        0 <= i < s.workers.len(),
        0 <= j < s.workers.len(),
    ensures
        s.workers[i].end() <= total,
        i < j ==> s.workers[i].end() <= s.workers[j].start,
{
    assert(worker_in_place(s, i, total, workers));
    assert(worker_in_place(s, j, total, workers));
    lemma_partition_in_bounds(total, workers, i as nat);
    if i < j {
        lemma_partitions_disjoint(total, workers, i as nat, j as nat);
    }
}

/// Every step leads from a consistent state to a consistent state.
pub proof fn lemma_step_consistent(s: RunState, e: RunEvent, total: nat, workers: nat)
    requires
        workers >= 1,
        consistent(s, total, workers),
    ensures
        consistent(step(s, e), total, workers),
{
    let t = step(s, e);
    match e {
        RunEvent::Poll { worker, cancelled } => {
            if 0 <= worker < s.workers.len() {
                assert forall|i: int| 0 <= i < t.workers.len() implies #[trigger] worker_in_place(
                    t,
                    i,
                    total,
                    workers,
                ) by {
                    assert(worker_in_place(s, i, total, workers));
                }
                assert forall|i: int| 0 <= i < t.workers.len() implies #[trigger] pending_unset(
                    t,
                    i,
                ) by {
                    assert(pending_unset(s, i));
                }
                assert forall|i: int| 0 <= i < t.workers.len() implies #[trigger] recorded_set(
                    t,
                    i,
                ) by {
                    assert(recorded_set(s, i));
                }
            }
        },
        RunEvent::Record { worker, success, elapsed_micros } => {
            if 0 <= worker < s.workers.len() {
                let w = s.workers[worker];
                assert(worker_in_place(s, worker, total, workers));
                lemma_ranges_apart(s, total, workers, worker, worker);
                assert forall|i: int| 0 <= i < t.workers.len() implies #[trigger] worker_in_place(
                    t,
                    i,
                    total,
                    workers,
                ) by {
                    assert(worker_in_place(s, i, total, workers));
                }
                assert forall|i: int| 0 <= i < t.workers.len() implies #[trigger] pending_unset(
                    t,
                    i,
                ) by {
                    assert(pending_unset(s, i));
                    assert(worker_in_place(s, i, total, workers));
                    lemma_ranges_apart(s, total, workers, i, i);
                    if i < worker {
                        lemma_ranges_apart(s, total, workers, i, worker);
                    } else if worker < i {
                        lemma_ranges_apart(s, total, workers, worker, i);
                    }
                    let w = t.workers[i];
                    assert forall|k: int|
                        w.next_index() <= k < w.end() implies #[trigger] t.store[k] == UNSET by {
                        assert(s.store[k] == UNSET);
                    }
                }
                assert forall|i: int| 0 <= i < t.workers.len() implies #[trigger] recorded_set(
                    t,
                    i,
                ) by {
                    assert(recorded_set(s, i));
                    assert(worker_in_place(s, i, total, workers));
                    lemma_ranges_apart(s, total, workers, i, i);
                    let w = t.workers[i];
                    assert forall|k: int|
                        w.start <= k < w.next_index() implies #[trigger] t.store[k] != UNSET by {
                        if k != s.workers[worker].next_index() || !s.workers[worker].in_flight {
                            assert(s.store[k] != UNSET);
                        }
                    }
                }
            }
        },
    }
}

/// Every state that a run reaches from a consistent state is consistent.
pub proof fn lemma_run_consistent(s: RunState, events: Seq<RunEvent>, total: nat, workers: nat)
    requires
        workers >= 1,
        consistent(s, total, workers),
    ensures
        consistent(run(s, events), total, workers),
    decreases events.len(),
{
    if events.len() > 0 {
        lemma_run_consistent(s, events.drop_last(), total, workers);
        lemma_step_consistent(run(s, events.drop_last()), events.last(), total, workers);
    }
}

/// In these steps every worker that asks finds the run cancelled.
pub open spec fn cancelled_throughout(events: Seq<RunEvent>) -> bool {
    forall|j: int| 0 <= j < events.len() ==> !(#[trigger] events[j]).polls_uncancelled()
}

/// In these steps no worker that asks finds the run cancelled.
pub open spec fn never_cancelled(events: Seq<RunEvent>) -> bool {
    forall|j: int| 0 <= j < events.len() ==> !(#[trigger] events[j]).polls_cancelled()
}

/// A step changes at most one slot. The slot it changes belongs to the
/// request in flight of the worker that records; it was unset and not yet
/// settled, and it now holds the value of the recorded result and is
/// settled.
pub proof fn lemma_step_writes_one_unset_slot(
    s: RunState,
    e: RunEvent,
    total: nat,
    workers: nat,
    k: int,
)
    requires
        workers >= 1,
        consistent(s, total, workers),
        0 <= k < total,
        step(s, e).store[k] != s.store[k],
    ensures
        e matches RunEvent::Record { worker, success, elapsed_micros } && 0 <= worker
            < s.workers.len() && s.workers[worker].in_flight && k
            == s.workers[worker].next_index() && step(s, e).store[k] == attempt_slot(
            success,
            elapsed_micros,
        ),
        s.store[k] == UNSET,
        !settled(s, k),
        settled(step(s, e), k),
{
    let t = step(s, e);
    match e {
        RunEvent::Poll { .. } => {},
        RunEvent::Record { worker, success, elapsed_micros } => {
            assert(worker_in_place(s, worker, total, workers));
            assert(pending_unset(s, worker));
            lemma_ranges_apart(s, total, workers, worker, worker);
            assert(t.workers[worker].start <= k < t.workers[worker].next_index());
            assert forall|i: int| 0 <= i < s.workers.len() implies !((
            #[trigger] s.workers[i]).start <= k < s.workers[i].next_index()) by {
                assert(worker_in_place(s, i, total, workers));
                if i < worker {
                    lemma_ranges_apart(s, total, workers, i, worker);
                } else if worker < i {
                    lemma_ranges_apart(s, total, workers, worker, i);
                }
            }
        },
    }
}

/// Whether step `e`, taken in state `s`, records a result: it is the step
/// of a worker that has a request in flight.
pub open spec fn records(s: RunState, e: RunEvent) -> bool {
    e matches RunEvent::Record { worker, .. } && 0 <= worker < s.workers.len()
        && s.workers[worker].in_flight
}

/// The fill level of the store counts the recorded results: a step that
/// records one raises it by exactly one, and every other step leaves it as
/// it is.
pub proof fn lemma_fill_level_counts_records(s: RunState, e: RunEvent, total: nat, workers: nat)
    requires
        workers >= 1,
        consistent(s, total, workers),
    ensures
        records(s, e) ==> filled(step(s, e).store) == filled(s.store) + 1,
        !records(s, e) ==> step(s, e).store == s.store,
{
    match e {
        RunEvent::Poll { .. } => {},
        RunEvent::Record { worker, success, elapsed_micros } => {
            if records(s, e) {
                let k = s.workers[worker].next_index() as int;
                assert(worker_in_place(s, worker, total, workers));
                assert(pending_unset(s, worker));
                lemma_ranges_apart(s, total, workers, worker, worker);
                assert(s.store[k] == UNSET);
                lemma_filled_update(s.store, k, attempt_slot(success, elapsed_micros));
            }
        },
    }
}

/// A slot that is settled keeps its value in every later step, and stays
/// settled: no slot is written twice.
pub proof fn lemma_settled_slot_is_kept(
    s: RunState,
    e: RunEvent,
    total: nat,
    workers: nat,
    k: int,
)
    requires
        workers >= 1,
        consistent(s, total, workers),
        settled(s, k),
    ensures
        step(s, e).store[k] == s.store[k],
        settled(step(s, e), k),
{
    let t = step(s, e);
    let i = choose|i: int|
        0 <= i < s.workers.len() && (#[trigger] s.workers[i]).start <= k
            < s.workers[i].next_index();
    assert(worker_in_place(s, i, total, workers));
    lemma_ranges_apart(s, total, workers, i, i);
    if t.store[k] != s.store[k] {
        lemma_step_writes_one_unset_slot(s, e, total, workers, k);
    }
    lemma_step_consistent(s, e, total, workers);
    assert(t.workers[i].start <= k < t.workers[i].next_index());
}

/// A slot that is settled keeps its value for the rest of the run.
pub proof fn lemma_settled_slot_is_kept_for_good(
    s: RunState,
    events: Seq<RunEvent>,
    total: nat,
    workers: nat,
    k: int,
)
    requires
        workers >= 1,
        consistent(s, total, workers),
        settled(s, k),
    ensures
        run(s, events).store[k] == s.store[k],
        settled(run(s, events), k),
    decreases events.len(),
{
    if events.len() > 0 {
        let before = run(s, events.drop_last());
        lemma_settled_slot_is_kept_for_good(s, events.drop_last(), total, workers, k);
        lemma_run_consistent(s, events.drop_last(), total, workers);
        lemma_settled_slot_is_kept(before, events.last(), total, workers, k);
    }
}

/// A worker that has stopped takes no further part in the run: no step
/// changes its state, the slots it has recorded keep their values, and the
/// slots it has not reached stay unset.
pub proof fn lemma_stopped_worker_stays(
    s: RunState,
    events: Seq<RunEvent>,
    total: nat,
    workers: nat,
    i: int,
)
    requires
        workers >= 1,
        consistent(s, total, workers),
        0 <= i < s.workers.len(),
        s.workers[i].stopped,
    ensures
        run(s, events).workers[i] == s.workers[i],
        forall|k: int|
            s.workers[i].start <= k < s.workers[i].next_index() ==> #[trigger] run(
                s,
                events,
            ).store[k] == s.store[k],
        forall|k: int|
            s.workers[i].next_index() <= k < s.workers[i].end() ==> #[trigger] run(
                s,
                events,
            ).store[k] == UNSET,
    decreases events.len(),
{
    let t = run(s, events);
    assert(worker_in_place(s, i, total, workers));
    if events.len() > 0 {
        lemma_stopped_worker_stays(s, events.drop_last(), total, workers, i);
        lemma_run_consistent(s, events.drop_last(), total, workers);
    }
    lemma_run_consistent(s, events, total, workers);
    assert(pending_unset(t, i));
    let w = s.workers[i];
    assert forall|k: int| w.start <= k < w.next_index() implies #[trigger] t.store[k]
        == s.store[k] by {
        assert(s.workers[i].start <= k < s.workers[i].next_index());
        lemma_settled_slot_is_kept_for_good(s, events, total, workers, k);
    }
}

/// Once every worker that asks finds the run cancelled, no worker is handed
/// a new request: a worker records at most the one result that was awaited
/// when the cancellation came.
pub proof fn lemma_cancellation_ends_progress(
    s: RunState,
    events: Seq<RunEvent>,
    total: nat,
    workers: nat,
    i: int,
)
    requires
        workers >= 1,
        consistent(s, total, workers),
        cancelled_throughout(events),
        0 <= i < s.workers.len(),
    ensures
        run(s, events).workers[i].done <= s.workers[i].done + if s.workers[i].in_flight {
            1nat
        } else {
            0nat
        },
        run(s, events).workers[i].in_flight ==> s.workers[i].in_flight && run(
            s,
            events,
        ).workers[i].done == s.workers[i].done,
    decreases events.len(),
{
    if events.len() > 0 {
        let earlier = events.drop_last();
        assert forall|j: int| 0 <= j < earlier.len() implies !(
        #[trigger] earlier[j]).polls_uncancelled() by {
            assert(earlier[j] == events[j]);
        }
        lemma_cancellation_ends_progress(s, earlier, total, workers, i);
        lemma_run_consistent(s, earlier, total, workers);
        assert(worker_in_place(run(s, earlier), i, total, workers));
        assert(!events[events.len() - 1].polls_uncancelled());
    }
}

/// If the run is cancelled before any worker starts, no request is made:
/// whatever steps follow, every slot stays unset, and the statistics show
/// no success and `total` failures.
pub proof fn lemma_cancelled_before_start(total: nat, workers: nat, events: Seq<RunEvent>)
    requires
        workers >= 1,
        cancelled_throughout(events),
    ensures
        run(start_of_run(total, workers), events).store == unset_store(total),
        filled(run(start_of_run(total, workers), events).store) == 0,
        stats_of(run(start_of_run(total, workers), events).store) == (0nat, total, 0nat),
        forall|i: int|
            0 <= i < active_workers(total, workers) ==> (#[trigger] run(
                start_of_run(total, workers),
                events,
            ).workers[i]).done == 0,
{
    let s = start_of_run(total, workers);
    let t = run(s, events);
    lemma_start_consistent(total, workers);
    lemma_run_consistent(s, events, total, workers);
    assert forall|i: int| 0 <= i < t.workers.len() implies (#[trigger] t.workers[i]).done == 0
        && !t.workers[i].in_flight by {
        lemma_cancellation_ends_progress(s, events, total, workers, i);
    }
    assert forall|k: int| 0 <= k < total implies t.store[k] == UNSET by {
        let i = lemma_owner_is_active(total, workers, k as nat);
        assert(worker_in_place(t, i as int, total, workers));
        assert(pending_unset(t, i as int));
        assert(t.workers[i as int].done == 0);
    }
    assert(t.store =~= unset_store(total));
    lemma_unset_store_stats(total);
    lemma_unset_store_is_empty(total);
}

/// The worker that owns a request index is one of the workers of the run.
pub proof fn lemma_owner_is_active(total: nat, workers: nat, k: nat) -> (i: nat)
    requires
        workers >= 1,
        k < total,
    ensures
        i < active_workers(total, workers),
        owns(total, workers, i, k),
{
    let i = lemma_every_index_owned_once(total, workers, k);
    if total < workers {
        lemma_surplus_workers_idle(total, workers, i);
    }
    i
}

/// While no worker finds the run cancelled, a worker stops only at the end
/// of its range.
pub proof fn lemma_uncancelled_worker_stops_at_end(
    total: nat,
    workers: nat,
    events: Seq<RunEvent>,
    i: int,
)
    requires
        workers >= 1,
        never_cancelled(events),
        0 <= i < active_workers(total, workers),
    ensures
        run(start_of_run(total, workers), events).workers[i].stopped ==> run(
            start_of_run(total, workers),
            events,
        ).workers[i].done == part_len(total, workers, i as nat),
    decreases events.len(),
{
    let s = start_of_run(total, workers);
    lemma_start_consistent(total, workers);
    lemma_run_consistent(s, events, total, workers);
    assert(worker_in_place(run(s, events), i, total, workers));
    if events.len() > 0 {
        let earlier = events.drop_last();
        assert forall|j: int| 0 <= j < earlier.len() implies !(
        #[trigger] earlier[j]).polls_cancelled() by {
            assert(earlier[j] == events[j]);
        }
        lemma_uncancelled_worker_stops_at_end(total, workers, earlier, i);
        lemma_run_consistent(s, earlier, total, workers);
        assert(worker_in_place(run(s, earlier), i, total, workers));
        lemma_ranges_apart(run(s, earlier), total, workers, i, i);
        assert(!events[events.len() - 1].polls_cancelled());
    }
}

/// Once every worker of a run has stopped, without any of them having
/// found the run cancelled, every slot of the store is settled: each
/// request has been made and its result recorded.
pub proof fn lemma_completed_run_settles_every_slot(
    total: nat,
    workers: nat,
    events: Seq<RunEvent>,
)
    requires
        workers >= 1,
        never_cancelled(events),
        forall|i: int|
            0 <= i < active_workers(total, workers) ==> (#[trigger] run(
                start_of_run(total, workers),
                events,
            ).workers[i]).stopped,
    ensures
        forall|k: int|
            0 <= k < total ==> #[trigger] settled(run(start_of_run(total, workers), events), k),
{
    let s = start_of_run(total, workers);
    let t = run(s, events);
    lemma_start_consistent(total, workers);
    lemma_run_consistent(s, events, total, workers);
    assert forall|k: int| 0 <= k < total implies #[trigger] settled(t, k) by {
        let i = lemma_owner_is_active(total, workers, k as nat) as int;
        lemma_uncancelled_worker_stops_at_end(total, workers, events, i);
        assert(worker_in_place(t, i, total, workers));
        assert(t.workers[i].stopped);
        assert(t.workers[i].start <= k < t.workers[i].next_index());
    }
}

/// In a consistent state a slot is set exactly when it is settled: the
/// slots that read as unset are those whose request has not been recorded.
pub proof fn lemma_set_means_settled(s: RunState, total: nat, workers: nat, k: int)
    requires
        workers >= 1,
        consistent(s, total, workers),
        0 <= k < total,
    ensures
        s.store[k] != UNSET <==> settled(s, k),
{
    if settled(s, k) {
        let i = choose|i: int|
            0 <= i < s.workers.len() && (#[trigger] s.workers[i]).start <= k
                < s.workers[i].next_index();
        assert(recorded_set(s, i));
    } else {
        let i = lemma_owner_is_active(total, workers, k as nat) as int;
        assert(worker_in_place(s, i, total, workers));
        assert(pending_unset(s, i));
        assert(!(s.workers[i].start <= k < s.workers[i].next_index()));
    }
}

/// Once every worker of a run has stopped, without any of them having
/// found the run cancelled, no slot of the store is unset: each holds a
/// latency or the failure marker, and the fill level is the number of
/// requests.
pub proof fn lemma_completed_run_fills_store(total: nat, workers: nat, events: Seq<RunEvent>)
    requires
        workers >= 1,
        never_cancelled(events),
        forall|i: int|
            0 <= i < active_workers(total, workers) ==> (#[trigger] run(
                start_of_run(total, workers),
                events,
            ).workers[i]).stopped,
    ensures
        forall|k: int|
            0 <= k < total ==> #[trigger] run(start_of_run(total, workers), events).store[k]
                != UNSET,
        filled(run(start_of_run(total, workers), events).store) == total,
{
    let s = start_of_run(total, workers);
    let t = run(s, events);
    lemma_start_consistent(total, workers);
    lemma_run_consistent(s, events, total, workers);
    lemma_completed_run_settles_every_slot(total, workers, events);
    assert forall|k: int| 0 <= k < total implies #[trigger] t.store[k] != UNSET by {
        assert(settled(t, k));
        lemma_set_means_settled(t, total, workers, k);
    }
    lemma_filled_bounds(t.store);
}

} // verus!
