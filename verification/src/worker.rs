//! One worker's walk through its range of request indices.
//!
//! A worker is asked what to do next and told whether the run has been
//! cancelled. It answers with the index of the request to make, or tells
//! the caller to stop. The caller makes the request and hands the result to
//! `record`, which writes the one slot that belongs to that request. A
//! worker that has seen the cancellation, or has reached the end of its
//! range, stays stopped.

use crate::partition::{lemma_partition_in_bounds, part_len, part_start, partition, Partition};
use crate::store::{attempt_slot, slot_for_attempt, write_slot, StoreFault};
use vstd::prelude::*;

verus! {

/// What the caller of a worker does next.
#[derive(Clone, Copy, Debug, PartialEq, Eq, Structural)]
pub enum Action {
    /// Make no further request.
    Stop,
    /// Make the request with this index, then record its result.
    Request { index: u32 },
}

/// Why a result could not be recorded.
#[derive(Clone, Copy, Debug, PartialEq, Eq, Structural)]
pub enum WorkerFault {
    /// No request was handed out that a result could belong to.
    NothingInFlight,
    /// The store refused the write. The worker has stopped.
    Store(StoreFault),
}

/// The state of a worker, as mathematical values.
pub struct WorkerState {
    /// Position of the worker in the pool.
    pub id: nat,
    /// First index of its range.
    pub start: nat,
    /// Number of indices in its range.
    pub len: nat,
    /// Number of requests whose result has been recorded.
    pub done: nat,
    /// Whether a request was handed out and its result is still awaited.
    pub in_flight: bool,
    /// Whether the worker has stopped for good.
    pub stopped: bool,
}

impl WorkerState {
    /// A worker that has not been asked anything yet.
    pub open spec fn fresh(id: nat, start: nat, len: nat) -> WorkerState {
        WorkerState { id, start, len, done: 0, in_flight: false, stopped: false }
    }

    /// What holds of every worker at every time.
    pub open spec fn wf(self) -> bool {
        &&& self.done <= self.len
        &&& self.in_flight ==> !self.stopped && self.done < self.len
    }

    /// Index of the request that is in flight, or that comes next.
    pub open spec fn next_index(self) -> nat {
        self.start + self.done
    }

    /// One past the last index of the range.
    pub open spec fn end(self) -> nat {
        self.start + self.len
    }

    /// Whether the worker hands out a new request when it is asked.
    pub open spec fn proceeds(self, cancelled: bool) -> bool {
        !self.in_flight && !self.stopped && !cancelled && self.done < self.len
    }

    /// Whether the worker answers with a request: a new one, or the one
    /// that is still in flight.
    pub open spec fn requests(self, cancelled: bool) -> bool {
        self.in_flight || self.proceeds(cancelled)
    }

    /// The worker after it has been asked what to do next.
    pub open spec fn after_poll(self, cancelled: bool) -> WorkerState {
        if self.in_flight {
            self
        } else if self.proceeds(cancelled) {
            WorkerState { in_flight: true, ..self }
        } else {
            WorkerState { stopped: true, ..self }
        }
    }

    /// Whether a result is written to a store of `store_len` slots.
    pub open spec fn writes(self, store_len: nat) -> bool {
        self.in_flight && self.next_index() < store_len
    }

    /// The worker after it has been handed a result.
    pub open spec fn after_record(self, store_len: nat) -> WorkerState {
        if !self.in_flight {
            self
        } else if self.next_index() < store_len {
            WorkerState { done: self.done + 1, in_flight: false, ..self }
        } else {
            WorkerState { in_flight: false, stopped: true, ..self }
        }
    }

    /// The store after the worker has been handed a result to record as
    /// `slot`.
    pub open spec fn store_after_record(self, store: Seq<u32>, slot: u32) -> Seq<u32> {
        if self.writes(store.len()) {
            store.update(self.next_index() as int, slot)
        } else {
            store
        }
    }
}

/// Being asked and being handed a result both keep a worker well formed.
pub proof fn lemma_steps_keep_well_formed(w: WorkerState, cancelled: bool, store_len: nat)
    requires
        w.wf(),
    ensures
        w.after_poll(cancelled).wf(),
        w.after_record(store_len).wf(),
{
}

/// A worker that has stopped hands out no request, and nothing that
/// happens to it changes its state.
pub proof fn lemma_stopped_is_final(w: WorkerState, cancelled: bool, store_len: nat)
    requires
        w.wf(),
        w.stopped,
    ensures
        !w.requests(cancelled),
        w.after_poll(cancelled) == w,
        w.after_record(store_len) == w,
        !w.writes(store_len),
{
}

/// A worker whose range is empty makes no request: the first time it is
/// asked it stops, whether or not the run is cancelled.
pub proof fn lemma_empty_range_makes_no_request(w: WorkerState, cancelled: bool, store_len: nat)
    requires
        w.wf(),
        w.len == 0,
    ensures
        w.done == 0,
        !w.requests(cancelled),
        w.after_poll(cancelled).stopped,
        !w.writes(store_len),
{
}

/// A worker that finds the run cancelled hands out no new request and
/// stops, unless a request is still in flight.
pub proof fn lemma_cancelled_poll_stops(w: WorkerState)
    requires
        w.wf(),
        !w.in_flight,
    ensures
        !w.requests(true),
        w.after_poll(true).stopped,
        w.after_poll(true).done == w.done,
{
}

/// One worker of the pool.
#[derive(Debug)]
pub struct Worker {
    id: u32,
    part: Partition,
    done: u32,
    in_flight: bool,
    stopped: bool,
}

impl View for Worker {
    type V = WorkerState;

    closed spec fn view(&self) -> WorkerState {
        WorkerState {
            id: self.id as nat,
            start: self.part.start as nat,
            len: self.part.len as nat,
            done: self.done as nat,
            in_flight: self.in_flight,
            stopped: self.stopped,
        }
    }
}

impl Worker {
    #[verifier::type_invariant]
    spec fn well_formed(self) -> bool {
        &&& self@.wf()
        &&& self.part.start + self.part.len <= u32::MAX
    }

    /// A worker with the given position in the pool and the given range,
    /// or nothing where the range runs past the largest index.
    pub fn new(id: u32, part: Partition) -> (worker: Option<Worker>)
        ensures
            part.start + part.len <= u32::MAX ==> worker is Some && worker->0@
                == WorkerState::fresh(id as nat, part.start as nat, part.len as nat),
            part.start + part.len > u32::MAX ==> worker is None,
    {
        if part.len <= u32::MAX - part.start {
            Some(Worker { id, part, done: 0, in_flight: false, stopped: false })
        } else {
            None
        }
    }

    /// Position of the worker in the pool.
    pub fn id(&self) -> (id: u32)
        ensures
            id == self@.id,
    {
        self.id
    }

    /// The range of indices that the worker owns.
    pub fn range(&self) -> (part: Partition)
        ensures
            part.start == self@.start,
            part.len == self@.len,
    {
        self.part
    }

    /// Number of requests whose result the worker has recorded.
    pub fn completed(&self) -> (done: u32)
        ensures
            done == self@.done,
    {
        self.done
    }

    /// Whether the worker has stopped for good.
    pub fn is_stopped(&self) -> (stopped: bool)
        ensures
            stopped == self@.stopped,
    {
        self.stopped
    }

    /// Decides what the caller does next. `cancelled` is the cancellation
    /// flag as the caller has just read it.
    ///
    /// While a request is in flight the answer is that request again.
    /// Otherwise a stopped worker, a cancelled run and a finished range all
    /// give `Stop`, and the worker stays stopped from then on. In every
    /// other case the next index of the range is handed out.
    pub fn poll(&mut self, cancelled: bool) -> (action: Action)
        ensures
            final(self)@ == old(self)@.after_poll(cancelled),
            final(self)@.wf(),
            old(self)@.requests(cancelled) ==> action == (Action::Request {
                index: old(self)@.next_index() as u32,
            }) && old(self)@.next_index() <= u32::MAX,
            !old(self)@.requests(cancelled) ==> action == Action::Stop,
    {
        proof {
            use_type_invariant(&*self);
        }
        if self.in_flight {
            Action::Request { index: self.part.start + self.done }
        } else if !self.stopped && !cancelled && self.done < self.part.len {
            self.in_flight = true;
            Action::Request { index: self.part.start + self.done }
        } else {
            self.stopped = true;
            Action::Stop
        }
    }

    /// Records the result of the request in flight: writes its slot and
    /// moves on to the next index.
    ///
    /// `success` tells whether a response arrived at all, whatever its
    /// status; `elapsed_micros` is the time the attempt took. Without a
    /// request in flight nothing changes. If the store has no slot for the
    /// request, nothing is written and the worker stops.
    pub fn record(&mut self, store: &mut Vec<u32>, success: bool, elapsed_micros: u128) -> (result:
        Result<(), WorkerFault>)
        ensures
            final(self)@ == old(self)@.after_record(old(store)@.len()),
            final(self)@.wf(),
            final(store)@ == old(self)@.store_after_record(
                old(store)@,
                attempt_slot(success, elapsed_micros),
            ),
            old(self)@.writes(old(store)@.len()) ==> result is Ok,
            !old(self)@.in_flight ==> result == Err::<(), WorkerFault>(
                WorkerFault::NothingInFlight,
            ),
            old(self)@.in_flight && !old(self)@.writes(old(store)@.len()) ==> result == Err::<
                (),
                WorkerFault,
            >(
                WorkerFault::Store(
                    StoreFault::OutOfRange {
                        index: old(self)@.next_index() as u32,
                        len: old(store).len(),
                    },
                ),
            ),
    {
        proof {
            use_type_invariant(&*self);
        }
        if !self.in_flight {
            return Err(WorkerFault::NothingInFlight);
        }
        let index: u32 = self.part.start + self.done;
        let slot = slot_for_attempt(success, elapsed_micros);
        self.in_flight = false;
        match write_slot(store, index, slot) {
            Ok(()) => {
                self.done = self.done + 1;
                Ok(())
            },
            Err(fault) => {
                self.stopped = true;
                Err(WorkerFault::Store(fault))
            },
        }
    }
}

/// Number of workers that get at least one request.
pub open spec fn active_workers(total: nat, workers: nat) -> nat {
    if total < workers {
        total
    } else {
        workers
    }
}

/// The workers of a run as it starts: one for each range that is not empty.
pub open spec fn fresh_workers(total: nat, workers: nat) -> Seq<WorkerState> {
    Seq::new(
        active_workers(total, workers),
        |i: int| WorkerState::fresh(i as nat, part_start(total, workers, i as nat), part_len(
            total,
            workers,
            i as nat,
        )),
    )
}

/// Plans a run of `number` requests over `threads` workers: computes the
/// ranges and returns one fresh worker for each range that is not empty, in
/// the order of the ranges.
pub fn dispatch(number: u32, threads: u32) -> (workers: Vec<Worker>)
    requires
        threads >= 1,
    ensures
        workers@.len() == active_workers(number as nat, threads as nat),
        forall|i: int|
            0 <= i < workers@.len() ==> (#[trigger] workers@[i])@ == fresh_workers(
                number as nat,
                threads as nat,
            )[i],
{
    let active: u32 = if number < threads { number } else { threads };
    let mut workers: Vec<Worker> = Vec::new();
    let mut i: u32 = 0;
    while i < active
        invariant
            threads >= 1,
            i <= active,
            active == active_workers(number as nat, threads as nat),
            workers@.len() == i,
            forall|j: int|
                0 <= j < i ==> (#[trigger] workers@[j])@ == fresh_workers(
                    number as nat,
                    threads as nat,
                )[j],
        decreases active - i,
    {
        let part = partition(number, threads, i);
        proof {
            lemma_partition_in_bounds(number as nat, threads as nat, i as nat);
        }
        workers.push(Worker { id: i, part, done: 0, in_flight: false, stopped: false });
        i = i + 1;
    }
    workers
}

} // verus!
