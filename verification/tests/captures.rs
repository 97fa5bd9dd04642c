//! Capture mechanism: bit-exact reconstruction of a full mixed capture
//! list, and re-entrant scheduling during an invocation.

use lbs::captures::ClosureArgsInner;
use lbs::codec::BasicallyAnIntptr;
use lbs::header::read_closure_header;
use lbs::sched::Scheduler;

#[test]
fn seven_mixed_captures_bit_exact() {
    // One closure with seven mixed scalar and address-like captures; the
    // trampoline side must reconstruct all seven bit for bit.
    let captures: (i64, u64, usize, isize, u64, usize, i64) = (
        i64::MIN,
        u64::MAX,
        0xdead_beef_usize,
        -0x0123_4567_89ab_isize,
        0x8000_0000_0000_0001_u64,
        usize::MAX,
        -1,
    );
    let mut s = Scheduler::new();
    assert!(s.schedule_closure(3, captures).is_none());
    let rec = s.pop_next().expect("one closure is pending");
    let (func, sz) = read_closure_header(rec[0]);
    assert_eq!(func, 3);
    assert_eq!(sz, 8);
    assert_eq!(rec.len(), 8);
    let got: (i64, u64, usize, isize, u64, usize, i64) =
        ClosureArgsInner::read_closure_fn_args(&rec);
    assert_eq!(got, captures);
}

#[test]
fn zero_captures() {
    let mut s = Scheduler::new();
    assert!(s.schedule_closure(4, ()).is_none());
    let rec = s.pop_next().expect("one closure is pending");
    let (func, sz) = read_closure_header(rec[0]);
    assert_eq!(func, 4);
    assert_eq!(sz, 1);
    assert_eq!(rec.len(), 1);
}

#[test]
fn word_values_in_record_match_codec() {
    // The words stored in the record are exactly the codec's conversions,
    // in declaration order.
    let mut s = Scheduler::new();
    s.schedule_closure(5, (7u64, -9i64));
    let rec = s.pop_next().expect("one closure is pending");
    assert_eq!(rec[1], 7u64.into_intptr());
    assert_eq!(rec[2], (-9i64).into_intptr());
}

#[test]
fn reschedule_self_during_invocation() {
    // A closure re-schedules itself while its own record is being read:
    // the result is exactly one extra queue entry, and the in-flight record
    // stays intact.
    const RESCHEDULE: i64 = 2;
    let mut s = Scheduler::new();
    assert!(s.schedule_closure(RESCHEDULE, (77i64,)).is_none());
    let rec = s.pop_next().expect("one closure is pending");
    let (func, _) = read_closure_header(rec[0]);
    assert_eq!(func, RESCHEDULE);
    assert_eq!(s.pending(), 0);
    // The closure body: schedule itself again, then finish reading its own
    // captures from the already-popped record.
    assert!(s.schedule_closure(RESCHEDULE, (77i64,)).is_none());
    assert_eq!(s.pending(), 1);
    let (arg,): (i64,) = ClosureArgsInner::read_closure_fn_args(&rec);
    assert_eq!(arg, 77);
    // The re-scheduled copy runs once and leaves the queue empty.
    let rec2 = s.pop_next().expect("the rescheduled closure is pending");
    assert_eq!(rec2, rec);
    let (arg2,): (i64,) = ClosureArgsInner::read_closure_fn_args(&rec2);
    assert_eq!(arg2, 77);
    assert!(s.pop_next().is_none());
}
