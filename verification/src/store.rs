//! The result store: one `u32` slot per request index.
//!
//! A slot holds `UNSET` until its request has been attempted, `FAILED` once
//! the attempt has failed, and otherwise the latency of the successful
//! attempt in microseconds. The two markers differ, so a request that was
//! never attempted can be told from one that failed. A latency lies
//! between `MIN_LATENCY` and `MAX_LATENCY`, so a success can be told from
//! both.

use vstd::prelude::*;

verus! {

/// Slot value of a request that has not been attempted.
pub const UNSET: u32 = 0;

/// Slot value of a request whose attempt failed.
pub const FAILED: u32 = 0xFFFF_FFFF;

/// What a slot says about its request.
#[derive(Clone, Copy, Debug, PartialEq, Eq, Structural)]
pub enum Outcome {
    /// The request has not been attempted.
    Unset,
    /// The request was attempted and failed.
    Failed,
    /// The request succeeded after this many microseconds.
    Latency(u32),
}

/// Why a write to the store was refused.
#[derive(Clone, Copy, Debug, PartialEq, Eq, Structural)]
pub enum StoreFault {
    /// The index does not name a slot of the store.
    OutOfRange { index: u32, len: usize },
}

/// Reading of one slot.
pub open spec fn slot_outcome(slot: u32) -> Outcome {
    if slot == UNSET {
        Outcome::Unset
    } else if slot == FAILED {
        Outcome::Failed
    } else {
        Outcome::Latency(slot)
    }
}

/// Whether the slot holds the latency of a successful request.
pub open spec fn is_latency(slot: u32) -> bool {
    slot != UNSET && slot != FAILED
}

/// A store of `total` slots, none of them written.
pub open spec fn unset_store(total: nat) -> Seq<u32> {
    Seq::new(total, |i: int| UNSET)
}

/// Number of slots that have been written, with a latency or a failure.
pub open spec fn filled(store: Seq<u32>) -> nat
    decreases store.len(),
{
    if store.len() == 0 {
        0
    } else {
        filled(store.drop_last()) + if store.last() != UNSET { 1nat } else { 0nat }
    }
}

/// Smallest latency that a slot can hold, in microseconds.
pub const MIN_LATENCY: u32 = 1;

/// Largest latency that a slot can hold, in microseconds.
pub const MAX_LATENCY: u32 = 0xFFFF_FFFE;

/// The latency that records an elapsed time: its microseconds, brought
/// into the range that a slot can hold. An elapsed time below
/// `MIN_LATENCY` is recorded as `MIN_LATENCY`, one above `MAX_LATENCY` as
/// `MAX_LATENCY`, so that a latency never reads as a marker.
pub open spec fn recorded_latency(elapsed_micros: u128) -> u32 {
    if elapsed_micros < MIN_LATENCY {
        MIN_LATENCY
    } else if elapsed_micros > MAX_LATENCY {
        MAX_LATENCY
    } else {
        elapsed_micros as u32
    }
}

/// The slot value that records one finished attempt.
pub open spec fn attempt_slot(success: bool, elapsed_micros: u128) -> u32 {
    if success {
        recorded_latency(elapsed_micros)
    } else {
        FAILED
    }
}

/// A success is always recorded as a latency and a failure as the failure
/// marker, so a recorded attempt never reads as unset. An elapsed time that
/// a slot can hold is recorded as it is.
pub proof fn lemma_attempt_is_recorded_as_what_it_was(success: bool, elapsed_micros: u128)
    ensures
        success ==> slot_outcome(attempt_slot(success, elapsed_micros)) == Outcome::Latency(
            recorded_latency(elapsed_micros),
        ),
        success ==> is_latency(attempt_slot(success, elapsed_micros)),
        !success ==> slot_outcome(attempt_slot(success, elapsed_micros)) == Outcome::Failed,
        attempt_slot(success, elapsed_micros) != UNSET,
        MIN_LATENCY <= elapsed_micros <= MAX_LATENCY ==> recorded_latency(elapsed_micros)
            == elapsed_micros,
{
}

/// Reads one slot.
pub fn outcome_of(slot: u32) -> (outcome: Outcome)
    ensures
        outcome == slot_outcome(slot),
{
    if slot == UNSET {
        Outcome::Unset
    } else if slot == FAILED {
        Outcome::Failed
    } else {
        Outcome::Latency(slot)
    }
}

/// Slot value for a finished attempt: for a success the elapsed
/// microseconds, brought into the range of latencies that a slot can hold,
/// and the failure marker otherwise.
pub fn slot_for_attempt(success: bool, elapsed_micros: u128) -> (slot: u32)
    ensures
        slot == attempt_slot(success, elapsed_micros),
        slot != UNSET,
        success <==> is_latency(slot),
{
    if !success {
        FAILED
    } else if elapsed_micros < MIN_LATENCY as u128 {
        MIN_LATENCY
    } else if elapsed_micros > MAX_LATENCY as u128 {
        MAX_LATENCY
    } else {
        elapsed_micros as u32
    }
}

/// Allocates the store for `number` requests, every slot unset.
pub fn new_store(number: u32) -> (store: Vec<u32>)
    ensures
        store@ == unset_store(number as nat),
{
    let store = vec![UNSET; number as usize];
    assert(store@ =~= unset_store(number as nat));
    store
}

/// Nothing is filled in a store that was just allocated.
pub proof fn lemma_unset_store_is_empty(total: nat)
    ensures
        filled(unset_store(total)) == 0,
    decreases total,
{
    if total > 0 {
        assert(unset_store(total).drop_last() =~= unset_store((total - 1) as nat));
        lemma_unset_store_is_empty((total - 1) as nat);
    }
}

/// The fill level never exceeds the number of slots, and reaches it exactly
/// when no slot is unset.
pub proof fn lemma_filled_bounds(store: Seq<u32>)
    ensures
        filled(store) <= store.len(),
        filled(store) == store.len() <==> forall|i: int|
            0 <= i < store.len() ==> store[i] != UNSET,
    decreases store.len(),
{
    if store.len() > 0 {
        let front = store.drop_last();
        lemma_filled_bounds(front);
        if filled(store) == store.len() {
            assert forall|i: int| 0 <= i < store.len() implies store[i] != UNSET by {
                if i < front.len() {
                    assert(front[i] == store[i]);
                }
            }
        }
        if forall|i: int| 0 <= i < store.len() ==> store[i] != UNSET {
            assert forall|i: int| 0 <= i < front.len() implies front[i] != UNSET by {
                assert(front[i] == store[i]);
            }
        }
    }
}

/// Writing one slot changes the fill level by what that slot adds to it:
/// one more if an unset slot is set, one less if a set slot is unset.
pub proof fn lemma_filled_update(store: Seq<u32>, k: int, slot: u32)
    requires
        0 <= k < store.len(),
    ensures
        filled(store.update(k, slot)) + if store[k] != UNSET {
            1nat
        } else {
            0nat
        } == filled(store) + if slot != UNSET {
            1nat
        } else {
            0nat
        },
    decreases store.len(),
{
    let after = store.update(k, slot);
    if k == store.len() - 1 {
        assert(after.drop_last() =~= store.drop_last());
    } else {
        assert(after.drop_last() =~= store.drop_last().update(k, slot));
        lemma_filled_update(store.drop_last(), k, slot);
    }
}

/// Counts the slots that have been written.
pub fn fill_level(store: &Vec<u32>) -> (level: usize)
    ensures
        level == filled(store@),
{
    let mut level: usize = 0;
    let mut i: usize = 0;
    while i < store.len()
        invariant
            i <= store.len(),
            level == filled(store@.take(i as int)),
            level <= i,
        decreases store.len() - i,
    {
        proof {
            assert(store@.take(i + 1).drop_last() =~= store@.take(i as int));
        }
        if store[i] != UNSET {
            level = level + 1;
        }
        i = i + 1;
    }
    proof {
        assert(store@.take(i as int) =~= store@);
    }
    level
}

/// Tells whether every one of the `number` requests of a run has been
/// recorded.
pub fn is_complete(store: &Vec<u32>, number: u32) -> (complete: bool)
    ensures
        complete == (filled(store@) >= number),
{
    fill_level(store) >= number as usize
}

/// Writes `slot` at `index`, or reports that the store has no such slot and
/// leaves it as it was.
pub fn write_slot(store: &mut Vec<u32>, index: u32, slot: u32) -> (result: Result<(), StoreFault>)
    ensures
        index < old(store).len() ==> result is Ok && final(store)@ == old(store)@.update(
            index as int,
            slot,
        ),
        index >= old(store).len() ==> result == Err::<(), StoreFault>(
            StoreFault::OutOfRange { index, len: old(store).len() },
        ) && final(store)@ == old(store)@,
{
    let len = store.len();
    if (index as usize) < len {
        store[index as usize] = slot;
        Ok(())
    } else {
        Err(StoreFault::OutOfRange { index, len })
    }
}

} // verus!
