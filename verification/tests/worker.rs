use site_tester::partition::Partition;
use site_tester::stats::{compute_stats, AggregateStats};
use site_tester::store::{fill_level, is_complete, new_store, StoreFault, FAILED, UNSET};
use site_tester::worker::{dispatch, Action, Worker, WorkerFault};

/// Drives every worker to its end, one after the other, with the given
/// result for every request.
fn run_all(number: u32, threads: u32, success: bool, elapsed: u128) -> (Vec<u32>, Vec<Vec<u32>>) {
    let mut store = new_store(number);
    let mut requested = Vec::new();
    for mut worker in dispatch(number, threads) {
        let mut indices = Vec::new();
        while let Action::Request { index } = worker.poll(false) {
            indices.push(index);
            assert_eq!(worker.record(&mut store, success, elapsed), Ok(()));
        }
        assert!(worker.is_stopped());
        requested.push(indices);
    }
    (store, requested)
}

#[test]
fn dispatch_makes_one_worker_per_range_that_is_not_empty() {
    let workers = dispatch(10, 3);
    assert_eq!(workers.len(), 3);
    let ranges: Vec<Partition> = workers.iter().map(|w| w.range()).collect();
    assert_eq!(
        ranges,
        vec![
            Partition { start: 0, len: 4 },
            Partition { start: 4, len: 3 },
            Partition { start: 7, len: 3 },
        ]
    );
    let ids: Vec<u32> = workers.iter().map(|w| w.id()).collect();
    assert_eq!(ids, vec![0, 1, 2]);
    for worker in &workers {
        assert_eq!(worker.completed(), 0);
        assert!(!worker.is_stopped());
    }
}

#[test]
fn dispatch_leaves_out_workers_without_requests() {
    assert_eq!(dispatch(3, 5).len(), 3);
    assert_eq!(dispatch(0, 4).len(), 0);
    assert_eq!(dispatch(5, 5).len(), 5);
    assert_eq!(dispatch(1, u32::MAX).len(), 1);
}

#[test]
fn ten_successes_over_three_workers() {
    let (store, requested) = run_all(10, 3, true, 100_000);
    assert_eq!(requested, vec![vec![0, 1, 2, 3], vec![4, 5, 6], vec![7, 8, 9]]);
    assert_eq!(store, vec![100_000; 10]);
    assert_eq!(fill_level(&store), 10);
    assert_eq!(
        compute_stats(&store),
        AggregateStats { average: 100_000, failures: 0, max: 100_000 }
    );
}

#[test]
fn five_failures_over_five_workers() {
    let (store, requested) = run_all(5, 5, false, 2_000);
    assert_eq!(requested, vec![vec![0], vec![1], vec![2], vec![3], vec![4]]);
    assert_eq!(store, vec![FAILED; 5]);
    assert_eq!(compute_stats(&store), AggregateStats { average: 0, failures: 5, max: 0 });
}

#[test]
fn mixed_results_over_two_workers() {
    let mut store = new_store(4);
    let mut workers = dispatch(4, 2);
    let results = [[(true, 50_000u128), (false, 10u128)], [(true, 150_000), (false, 20)]];
    for (worker, plan) in workers.iter_mut().zip(results.iter()) {
        for (success, elapsed) in plan.iter() {
            assert!(matches!(worker.poll(false), Action::Request { .. }));
            assert_eq!(worker.record(&mut store, *success, *elapsed), Ok(()));
        }
        assert_eq!(worker.poll(false), Action::Stop);
    }
    assert_eq!(store, vec![50_000, FAILED, 150_000, FAILED]);
    assert_eq!(
        compute_stats(&store),
        AggregateStats { average: 100_000, failures: 2, max: 150_000 }
    );
}

#[test]
fn completed_run_leaves_no_slot_unset() {
    for number in 0..25u32 {
        for threads in 1..8u32 {
            let (store, _) = run_all(number, threads, true, 7);
            assert_eq!(store.len(), number as usize);
            assert!(store.iter().all(|slot| *slot != UNSET));
            assert_eq!(fill_level(&store), number as usize);
        }
    }
}

#[test]
fn interleaved_workers_write_each_slot_once() {
    let mut store = new_store(7);
    let mut workers = dispatch(7, 3);
    let mut writes = vec![0u32; 7];
    let mut active = true;
    while active {
        active = false;
        for worker in workers.iter_mut().rev() {
            if let Action::Request { index } = worker.poll(false) {
                active = true;
                assert_eq!(store[index as usize], UNSET);
                writes[index as usize] += 1;
                assert_eq!(worker.record(&mut store, true, 1_000 + index as u128), Ok(()));
                assert_eq!(store[index as usize], 1_000 + index);
            }
        }
    }
    assert_eq!(writes, vec![1; 7]);
    assert_eq!(store, vec![1_000, 1_001, 1_002, 1_003, 1_004, 1_005, 1_006]);
}

#[test]
fn cancellation_before_start_leaves_the_store_unset() {
    let mut store = new_store(10);
    for mut worker in dispatch(10, 3) {
        assert_eq!(worker.poll(true), Action::Stop);
        assert!(worker.is_stopped());
        assert_eq!(worker.completed(), 0);
        assert_eq!(
            worker.record(&mut store, true, 100),
            Err(WorkerFault::NothingInFlight)
        );
    }
    assert_eq!(store, vec![UNSET; 10]);
    assert_eq!(compute_stats(&store), AggregateStats { average: 0, failures: 10, max: 0 });
}

#[test]
fn cancellation_mid_run_keeps_earlier_slots_and_leaves_later_ones_unset() {
    let mut store = new_store(10);
    let mut workers = dispatch(10, 3);
    for worker in workers.iter_mut() {
        assert!(matches!(worker.poll(false), Action::Request { .. }));
        assert_eq!(worker.record(&mut store, true, 500), Ok(()));
    }
    assert_eq!(workers[0].poll(false), Action::Request { index: 1 });
    assert_eq!(workers[0].record(&mut store, false, 9), Ok(()));
    for worker in workers.iter_mut() {
        assert_eq!(worker.poll(true), Action::Stop);
    }
    assert_eq!(store, vec![500, FAILED, 0, 0, 500, 0, 0, 500, 0, 0]);
    let completed: Vec<u32> = workers.iter().map(|w| w.completed()).collect();
    assert_eq!(completed, vec![2, 1, 1]);
    assert_eq!(compute_stats(&store), AggregateStats { average: 500, failures: 7, max: 500 });
}

#[test]
fn stopped_worker_stays_stopped() {
    let mut store = new_store(4);
    let mut workers = dispatch(4, 1);
    let worker = &mut workers[0];
    assert_eq!(worker.poll(false), Action::Request { index: 0 });
    assert_eq!(worker.record(&mut store, true, 5), Ok(()));
    assert_eq!(worker.poll(true), Action::Stop);
    assert_eq!(worker.poll(false), Action::Stop);
    assert_eq!(worker.poll(false), Action::Stop);
    assert_eq!(worker.record(&mut store, true, 5), Err(WorkerFault::NothingInFlight));
    assert_eq!(worker.completed(), 1);
    assert_eq!(store, vec![5, 0, 0, 0]);
}

#[test]
fn request_in_flight_survives_cancellation() {
    let mut store = new_store(3);
    let mut workers = dispatch(3, 1);
    let worker = &mut workers[0];
    assert_eq!(worker.poll(false), Action::Request { index: 0 });
    assert_eq!(worker.poll(true), Action::Request { index: 0 });
    assert!(!worker.is_stopped());
    assert_eq!(worker.record(&mut store, true, 8), Ok(()));
    assert_eq!(worker.poll(true), Action::Stop);
    assert_eq!(store, vec![8, 0, 0]);
}

#[test]
fn recording_without_a_request_changes_nothing() {
    let mut store = new_store(3);
    let mut workers = dispatch(3, 1);
    assert_eq!(
        workers[0].record(&mut store, true, 8),
        Err(WorkerFault::NothingInFlight)
    );
    assert_eq!(store, vec![0, 0, 0]);
    assert_eq!(workers[0].completed(), 0);
    assert!(!workers[0].is_stopped());
    assert_eq!(workers[0].poll(false), Action::Request { index: 0 });
}

#[test]
fn store_that_is_too_short_stops_the_worker() {
    let mut store = new_store(2);
    let mut worker = Worker::new(0, Partition { start: 1, len: 3 }).unwrap();
    assert_eq!(worker.poll(false), Action::Request { index: 1 });
    assert_eq!(worker.record(&mut store, true, 8), Ok(()));
    assert_eq!(worker.poll(false), Action::Request { index: 2 });
    assert_eq!(
        worker.record(&mut store, true, 8),
        Err(WorkerFault::Store(StoreFault::OutOfRange { index: 2, len: 2 }))
    );
    assert!(worker.is_stopped());
    assert_eq!(worker.completed(), 1);
    assert_eq!(worker.poll(false), Action::Stop);
    assert_eq!(store, vec![0, 8]);
}

#[test]
fn worker_on_an_empty_range_makes_no_request() {
    let mut worker = Worker::new(4, Partition { start: 3, len: 0 }).unwrap();
    assert_eq!(worker.id(), 4);
    assert_eq!(worker.poll(false), Action::Stop);
    assert!(worker.is_stopped());
    assert_eq!(worker.completed(), 0);
}

#[test]
fn worker_needs_a_range_within_the_index_space() {
    assert!(Worker::new(0, Partition { start: u32::MAX, len: 1 }).is_none());
    assert!(Worker::new(0, Partition { start: 2, len: u32::MAX - 1 }).is_none());
    let worker = Worker::new(0, Partition { start: 2, len: u32::MAX - 2 }).unwrap();
    assert_eq!(worker.range(), Partition { start: 2, len: u32::MAX - 2 });
    assert!(Worker::new(0, Partition { start: u32::MAX, len: 0 }).is_some());
}

#[test]
fn zero_latency_success_counts_as_a_success() {
    let (store, _) = run_all(2, 1, true, 0);
    assert_eq!(store, vec![1; 2]);
    assert_eq!(fill_level(&store), 2);
    assert!(is_complete(&store, 2));
    assert_eq!(compute_stats(&store), AggregateStats { average: 1, failures: 0, max: 1 });
}

#[test]
fn longest_latency_counts_as_a_success() {
    let (store, _) = run_all(3, 2, true, 4_294_967_295);
    assert_eq!(store, vec![u32::MAX - 1; 3]);
    assert_eq!(fill_level(&store), 3);
    assert!(is_complete(&store, 3));
    assert_eq!(
        compute_stats(&store),
        AggregateStats { average: u32::MAX - 1, failures: 0, max: u32::MAX - 1 }
    );
}

#[test]
fn completed_run_is_complete_whatever_the_elapsed_times() {
    for elapsed in [0u128, 1, 999, 4_294_967_294, 4_294_967_295, 4_294_967_296, u128::MAX] {
        for success in [true, false] {
            let (store, _) = run_all(5, 2, success, elapsed);
            assert!(store.iter().all(|slot| *slot != UNSET));
            assert_eq!(fill_level(&store), 5);
            let stats = compute_stats(&store);
            assert_eq!(stats.failures, if success { 0 } else { 5 });
        }
    }
}

#[test]
fn fill_level_rises_by_one_with_every_recorded_result() {
    let mut store = new_store(9);
    let mut workers = dispatch(9, 4);
    let mut level = 0usize;
    let mut active = true;
    while active {
        active = false;
        for worker in workers.iter_mut() {
            if let Action::Request { index } = worker.poll(false) {
                active = true;
                let success = index % 2 == 0;
                assert_eq!(worker.record(&mut store, success, 40 + index as u128), Ok(()));
                level += 1;
                assert_eq!(fill_level(&store), level);
            }
        }
    }
    assert_eq!(level, 9);
    assert_eq!(store, vec![40, FAILED, 42, FAILED, 44, FAILED, 46, FAILED, 48]);
    assert_eq!(compute_stats(&store), AggregateStats { average: 44, failures: 4, max: 48 });
}
