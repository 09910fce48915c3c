use site_tester::store::{
    fill_level, is_complete, new_store, outcome_of, slot_for_attempt, write_slot, Outcome,
    StoreFault, FAILED, MAX_LATENCY, MIN_LATENCY, UNSET,
};

#[test]
fn new_store_is_all_unset() {
    let store = new_store(6);
    assert_eq!(store, vec![UNSET; 6]);
    assert_eq!(fill_level(&store), 0);
    assert_eq!(new_store(0), Vec::<u32>::new());
}

#[test]
fn markers_are_distinct() {
    assert_eq!(UNSET, 0);
    assert_eq!(FAILED, u32::MAX);
    assert_ne!(UNSET, FAILED);
}

#[test]
fn slots_read_as_outcomes() {
    assert_eq!(outcome_of(0), Outcome::Unset);
    assert_eq!(outcome_of(u32::MAX), Outcome::Failed);
    assert_eq!(outcome_of(1), Outcome::Latency(1));
    assert_eq!(outcome_of(100_000), Outcome::Latency(100_000));
    assert_eq!(outcome_of(u32::MAX - 1), Outcome::Latency(u32::MAX - 1));
}

#[test]
fn attempts_become_slot_values() {
    assert_eq!(slot_for_attempt(true, 100_000), 100_000);
    assert_eq!(slot_for_attempt(true, 1), 1);
    assert_eq!(slot_for_attempt(true, 4_294_967_294), 4_294_967_294);
    assert_eq!(slot_for_attempt(false, 100_000), FAILED);
    assert_eq!(slot_for_attempt(false, 0), FAILED);
    assert_eq!(slot_for_attempt(false, u128::MAX), FAILED);
}

#[test]
fn latencies_are_kept_apart_from_the_markers() {
    assert_eq!(MIN_LATENCY, 1);
    assert_eq!(MAX_LATENCY, u32::MAX - 1);
    assert_eq!(slot_for_attempt(true, 0), MIN_LATENCY);
    assert_eq!(slot_for_attempt(true, 4_294_967_295), MAX_LATENCY);
    assert_eq!(slot_for_attempt(true, 4_294_967_296), MAX_LATENCY);
    assert_eq!(slot_for_attempt(true, 4_294_967_296 + 5), MAX_LATENCY);
    assert_eq!(slot_for_attempt(true, u128::MAX), MAX_LATENCY);
    for elapsed in [0u128, 1, 2, 4_294_967_294, 4_294_967_295, 4_294_967_296, 8_589_934_592] {
        assert!(matches!(outcome_of(slot_for_attempt(true, elapsed)), Outcome::Latency(_)));
        assert_eq!(outcome_of(slot_for_attempt(false, elapsed)), Outcome::Failed);
    }
}

#[test]
fn write_slot_changes_one_slot() {
    let mut store = new_store(4);
    assert_eq!(write_slot(&mut store, 2, 77), Ok(()));
    assert_eq!(store, vec![0, 0, 77, 0]);
    assert_eq!(write_slot(&mut store, 0, FAILED), Ok(()));
    assert_eq!(store, vec![FAILED, 0, 77, 0]);
}

#[test]
fn write_slot_refuses_an_index_outside_the_store() {
    let mut store = new_store(4);
    assert_eq!(
        write_slot(&mut store, 4, 77),
        Err(StoreFault::OutOfRange { index: 4, len: 4 })
    );
    assert_eq!(store, vec![0, 0, 0, 0]);
    let mut empty = new_store(0);
    assert_eq!(
        write_slot(&mut empty, 0, 1),
        Err(StoreFault::OutOfRange { index: 0, len: 0 })
    );
}

#[test]
fn fill_level_counts_written_slots() {
    let store = vec![0u32, 15, FAILED, 0, 22];
    assert_eq!(fill_level(&store), 3);
    assert!(!is_complete(&store, 5));
    assert!(is_complete(&store, 3));
    let full = vec![1u32, FAILED, 3];
    assert_eq!(fill_level(&full), 3);
    assert!(is_complete(&full, 3));
    assert!(is_complete(&Vec::new(), 0));
}
