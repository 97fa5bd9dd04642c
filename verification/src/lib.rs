//! An allocation-light, single-threaded cooperative task scheduler that keeps
//! heterogeneous deferred closures inline in a fixed-capacity circular buffer
//! of machine words.
//!
//! A closure is stored as a contiguous run of words: one header word packing a
//! function word and the record's word count, followed by one word per
//! captured value. The buffer never splits a record across its physical end;
//! a sentinel word marks the truncation point and the record starts again at
//! index zero. The scheduler never refuses work: at capacity it hands the
//! oldest record back to the caller for immediate execution and then enqueues
//! the new one.
//!
//! Internal invariants — non-empty on dequeue, in-bounds record sizes, the
//! wrap ordering — are not guarded by runtime checks, neither always-on nor
//! debug-only: they are stated as `requires` clauses and invariants that
//! Verus discharges at build time, so the queue's verified operations cannot
//! panic and the hot path carries no checks at all.


pub mod captures;
pub mod codec;
pub mod header;
pub mod queue;
pub mod sched;
