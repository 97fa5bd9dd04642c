//! Work-queue behaviour: FIFO order, and whole-record reads across many
//! sentinel-triggered wraps.

use lbs::header::make_closure_header;
use lbs::queue::WorkQueue;

fn record(func: i64, payload: &[i64]) -> Vec<i64> {
    let sz = payload.len() + 1;
    assert!(sz <= 8);
    let mut rec = vec![make_closure_header(func, sz)];
    rec.extend_from_slice(payload);
    rec
}

#[test]
fn fifo_basic() {
    let mut q = WorkQueue::new();
    assert_eq!(q.len(), 0);
    let r1 = record(1, &[10]);
    let r2 = record(2, &[20, 21]);
    let r3 = record(3, &[]);
    q.enqueue(&r1);
    q.enqueue(&r2);
    q.enqueue(&r3);
    assert_eq!(q.len(), 3);
    assert_eq!(q.dequeue(), r1);
    assert_eq!(q.dequeue(), r2);
    assert_eq!(q.dequeue(), r3);
    assert_eq!(q.len(), 0);
}

#[test]
fn whole_records_across_wraps() {
    // Enqueue and dequeue far more words than the buffer holds, with sizes
    // that force the tail to wrap through the sentinel many times; every
    // record must come back whole and unchanged.
    let mut q = WorkQueue::new();
    let mut model: std::collections::VecDeque<Vec<i64>> = std::collections::VecDeque::new();
    let mut next: i64 = 0;
    for step in 0..2000 {
        if model.len() < 32 && (step % 3 != 0 || model.is_empty()) {
            let caps = (step % 8) as usize; // 0..=7 captures
            let payload: Vec<i64> = (0..caps as i64).map(|k| next * 100 + k).collect();
            let rec = record(next, &payload);
            q.enqueue(&rec);
            model.push_back(rec);
            next += 1;
        } else {
            let got = q.dequeue();
            let want = model.pop_front().unwrap();
            assert_eq!(got, want);
        }
        assert_eq!(q.len(), model.len());
    }
    while let Some(want) = model.pop_front() {
        assert_eq!(q.dequeue(), want);
    }
    assert_eq!(q.len(), 0);
}

#[test]
fn full_capacity_and_headroom() {
    // Fill to the nominal capacity with maximal records, drain completely,
    // and check order; then once more with one record of headroom used.
    let mut q = WorkQueue::new();
    for round in 0..3 {
        let n = 32 + if round == 2 { 1 } else { 0 };
        for i in 0..n {
            let payload = [i; 7];
            q.enqueue(&record(i, &payload));
        }
        assert_eq!(q.len() as i64, n);
        for i in 0..n {
            let rec = q.dequeue();
            assert_eq!(rec, record(i, &[i; 7]));
        }
    }
}
