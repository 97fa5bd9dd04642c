//! Scheduler behaviour: FIFO order, eviction at saturation, idempotent
//! drain, and the 34-closure saturation scenario.

use lbs::captures::ClosureArgsInner;
use lbs::header::read_closure_header;
use lbs::sched::Scheduler;

const PRINT_INDEX: i64 = 1;

/// Runs one popped record: decodes its header and, for the one function
/// this harness knows, reads the captured index back and logs it.
fn invoke(rec: &Vec<i64>, log: &mut Vec<i64>) {
    let (func, sz) = read_closure_header(rec[0]);
    assert_eq!(sz, rec.len());
    assert_eq!(func, PRINT_INDEX);
    let (index,): (i64,) = ClosureArgsInner::read_closure_fn_args(rec);
    log.push(index);
}

#[test]
fn fifo_order_without_eviction() {
    let mut s = Scheduler::new();
    for i in 0..5 {
        let evicted = s.schedule(PRINT_INDEX, &vec![i]);
        assert!(evicted.is_none());
    }
    let mut log = Vec::new();
    while let Some(rec) = s.pop_next() {
        invoke(&rec, &mut log);
    }
    assert_eq!(log, vec![0, 1, 2, 3, 4]);
}

#[test]
fn eviction_at_saturation() {
    let mut s = Scheduler::new();
    for i in 0..32 {
        assert!(s.schedule(PRINT_INDEX, &vec![i]).is_none());
    }
    assert_eq!(s.pending(), 32);
    // The 33rd closure forces exactly the oldest one to run first.
    let mut log = Vec::new();
    match s.schedule(PRINT_INDEX, &vec![32]) {
        Some(rec) => invoke(&rec, &mut log),
        None => panic!("saturated scheduler must evict"),
    }
    assert_eq!(log, vec![0]);
    assert!(s.pending() <= 32);
    assert_eq!(s.pending(), 32);
}

#[test]
fn idempotent_drain() {
    let mut s = Scheduler::new();
    for i in 0..7 {
        s.schedule(PRINT_INDEX, &vec![i]);
    }
    let mut log = Vec::new();
    while let Some(rec) = s.pop_next() {
        invoke(&rec, &mut log);
    }
    assert_eq!(log.len(), 7);
    // A second consecutive drain with no intervening scheduling is a no-op.
    let mut second = 0;
    while let Some(_rec) = s.pop_next() {
        second += 1;
    }
    assert_eq!(second, 0);
    assert_eq!(s.pending(), 0);
}

#[test]
fn saturation_scenario_thirty_four() {
    // Schedule 34 single-capture closures that log their index. Scheduling
    // closures 32 and 33 runs closures 0 and 1 immediately; a final drain
    // runs the remaining 32 in ascending order, no duplicates, no gaps.
    let mut s = Scheduler::new();
    let mut log = Vec::new();
    for i in 0..34 {
        if let Some(rec) = s.schedule(PRINT_INDEX, &vec![i]) {
            invoke(&rec, &mut log);
        }
    }
    assert_eq!(log, vec![0, 1]);
    while let Some(rec) = s.pop_next() {
        invoke(&rec, &mut log);
    }
    let expected: Vec<i64> = (0..34).collect();
    assert_eq!(log, expected);
}
