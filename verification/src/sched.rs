//! Scheduler: owns one work queue per execution context, writes closure
//! records through the header codec, and applies the overflow policy — at
//! capacity the oldest closure is handed back for immediate execution
//! rather than refusing or dropping the new one.

use vstd::prelude::*;

use crate::captures::ClosureArgsInner;
use crate::codec::Word;
use crate::header::{make_closure_header, make_header_spec};
use crate::queue::{valid_record, WorkQueue, MAX_CLOSURE_CAPTURES, WORK_QUEUE_CAP};

verus! {

/// The record that scheduling writes for a function word and its captured
/// words: a header carrying the record's total word count, then one word
/// per capture in declaration order.
pub open spec fn record_of(func: Word, args: Seq<Word>) -> Seq<Word> {
    seq![make_header_spec(func, (args.len() + 1) as u64)] + args
}

/// A scheduler and its single work queue. One scheduler belongs to one
/// execution context; there is no sharing and no synchronization.
pub struct Scheduler {
    queue_0: WorkQueue,
}

impl View for Scheduler {
    type V = Seq<Seq<Word>>;

    /// The pending records, oldest first.
    closed spec fn view(&self) -> Seq<Seq<Word>> {
        self.queue_0@
    }
}

impl Scheduler {
    /// Well-formedness: the queue is well-formed and holds at most the
    /// nominal capacity of records.
    pub closed spec fn wf(self) -> bool {
        &&& self.queue_0.wf()
        &&& self.queue_0@.len() <= WORK_QUEUE_CAP
    }

    /// A fresh scheduler with an empty queue.
    pub fn new() -> (s: Scheduler)
        ensures
            s.wf(),
            s@ == Seq::<Seq<Word>>::empty(),
    {
        Scheduler { queue_0: WorkQueue::new() }
    }

    /// The number of pending closures: never above the nominal capacity.
    pub fn pending(&self) -> (n: usize)
        requires
            self.wf(),
        ensures
            n == self@.len(),
            n <= WORK_QUEUE_CAP,
    {
        self.queue_0.len()
    }

    /// Schedules a closure given as a function word and its captured words.
    ///
    /// Scheduling never refuses work and never blocks. Below capacity the
    /// record is simply appended. At capacity the oldest record is dequeued
    /// first to make room and returned; the caller must execute it at once,
    /// before anything else runs — the cost of saturation is an old task
    /// running earlier than its natural turn, never a lost task.
    pub fn schedule(&mut self, func: Word, args: &Vec<Word>) -> (evicted: Option<Vec<Word>>)
        requires
            old(self).wf(),
            args@.len() <= MAX_CLOSURE_CAPTURES,
        ensures
            final(self).wf(),
            old(self)@.len() < WORK_QUEUE_CAP ==> {
                &&& evicted is None
                &&& final(self)@ == old(self)@.push(record_of(func, args@))
            },
            old(self)@.len() == WORK_QUEUE_CAP ==> {
                &&& evicted matches Some(r) && r@ == old(self)@[0] && valid_record(r@)
                &&& final(self)@ == old(self)@.skip(1).push(record_of(func, args@))
            },
    {
        let evicted: Option<Vec<Word>> = if self.queue_0.len() == WORK_QUEUE_CAP {
            Some(self.queue_0.dequeue())
        } else {
            None
        };
        let sz: usize = args.len() + 1;
        let header: Word = make_closure_header(func, sz);
        proof {
            crate::header::lemma_header_sz_exact(func, sz as u64);
        }
        let mut rec: Vec<Word> = Vec::new();
        rec.push(header);
        let mut i: usize = 0;
        while i < args.len()
            invariant
                i <= args@.len(),
                rec@.len() == i + 1,
                rec@[0] == header,
                forall|j: int| 0 <= j < i ==> rec@[j + 1] == args@[j],
            decreases args@.len() - i,
        {
            rec.push(args[i]);
            i = i + 1;
        }
        proof {
            assert(rec@ =~= record_of(func, args@));
        }
        self.queue_0.enqueue(&rec);
        evicted
    }

    /// Schedules a closure given its typed captures: converts each capture
    /// to a word and schedules the resulting record.
    pub fn schedule_closure<T: ClosureArgsInner>(&mut self, func: Word, captures: T) -> (evicted:
        Option<Vec<Word>>)
        requires
            old(self).wf(),
            T::arity() <= MAX_CLOSURE_CAPTURES,
        ensures
            final(self).wf(),
            old(self)@.len() < WORK_QUEUE_CAP ==> {
                &&& evicted is None
                &&& final(self)@ == old(self)@.push(record_of(func, captures.words_spec()))
            },
            old(self)@.len() == WORK_QUEUE_CAP ==> {
                &&& evicted matches Some(r) && r@ == old(self)@[0] && valid_record(r@)
                &&& final(self)@ == old(self)@.skip(1).push(record_of(func, captures.words_spec()))
            },
    {
        let ws: Vec<Word> = captures.write_closure_fn_args();
        self.schedule(func, &ws)
    }

    /// Removes and returns the oldest pending record, or nothing when the
    /// queue is empty.
    ///
    /// On an empty queue the scheduler is left exactly as it was, so a
    /// drain loop observing an empty queue is a no-op: a second consecutive
    /// drain with no intervening scheduling does nothing.
    pub fn pop_next(&mut self) -> (r: Option<Vec<Word>>)
        requires
            old(self).wf(),
        ensures
            final(self).wf(),
            old(self)@.len() == 0 ==> r is None && *final(self) == *old(self),
            old(self)@.len() > 0 ==> {
                &&& r matches Some(rec) && rec@ == old(self)@[0] && valid_record(rec@)
                &&& final(self)@ == old(self)@.skip(1)
            },
    {
        if self.queue_0.len() == 0 {
            None
        } else {
            Some(self.queue_0.dequeue())
        }
    }
}

/// Trampoline law: the captures a record was scheduled with are exactly the
/// captures the trampoline reads back from that record, and the word count
/// written into the record's header equals the count the trampoline reads —
/// one word per capture plus the header itself.
pub proof fn lemma_trampoline_round_trip<T: ClosureArgsInner>(func: Word, captures: T)
    requires
        T::arity() <= MAX_CLOSURE_CAPTURES,
    ensures
        captures.words_spec().len() == T::arity(),
        record_of(func, captures.words_spec()).len() == T::arity() + 1,
        crate::header::header_sz(record_of(func, captures.words_spec())[0]) == T::arity() + 1,
        T::read_spec(
            record_of(func, captures.words_spec()).subrange(1, (T::arity() + 1) as int),
        ) == captures,
{
    captures.lemma_captures_round_trip();
    crate::header::lemma_header_sz_exact(func, (T::arity() + 1) as u64);
    assert(record_of(func, captures.words_spec()).subrange(1, (T::arity() + 1) as int)
        =~= captures.words_spec());
}

} // verus!
