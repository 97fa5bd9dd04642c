//! Circular work queue: a fixed backing array of machine words holding
//! variable-length closure records, with head/tail cursors and a logical
//! length counted in records.
//!
//! A record is a contiguous run of `1 + capture-count` words: a header word
//! followed by the captured values. Records are written whole by `enqueue`
//! and consumed whole by `dequeue`; no record is ever split by the physical
//! end of the buffer. When a record would not fit before the end, a sentinel
//! word (zero) is written at the tail and the record starts again at index
//! zero. Valid headers are never zero (their size field is at least one), so
//! the sentinel is unambiguous.
//!
//! The buffer reserves slack beyond the nominal capacity: with at most
//! `WORK_QUEUE_CAP + 1` records of at most `MAX_CLOSURE_SZ_INTPTRS` words
//! each, plus at most one wasted wrap gap of under one maximal record, the
//! tail can never run into the head. That arithmetic is exactly what the
//! lemmas below establish.

use vstd::prelude::*;
use vstd::pervasive::VecAdditionalExecFns;

use crate::codec::Word;
use crate::header::header_sz;

verus! {

/// Nominal queue capacity, in records.
pub const WORK_QUEUE_CAP: usize = 32;

/// Most captured values one closure may carry.
pub const MAX_CLOSURE_CAPTURES: usize = 7;

/// Most words one record may occupy: the header plus the captures.
pub const MAX_CLOSURE_SZ_INTPTRS: usize = MAX_CLOSURE_CAPTURES + 1;

/// Backing array length, in words: the nominal capacity plus slack of two
/// maximal records, one for the record of headroom the queue grants beyond
/// its nominal capacity and one for the gap a wrap may waste.
pub const WORK_QUEUE_CAP_INTPTRS: usize = (WORK_QUEUE_CAP + 2) * MAX_CLOSURE_SZ_INTPTRS;

/// Lowest index at which a wrap sentinel may sit: a wrap only happens when
/// less than one maximal record of room is left before the physical end.
pub const WRAP_SENTINEL_LO: usize = WORK_QUEUE_CAP_INTPTRS - MAX_CLOSURE_SZ_INTPTRS;

/// A well-formed closure record: at least the header word, at most a maximal
/// record, and a header whose size field equals the record's actual length.
pub open spec fn valid_record(r: Seq<Word>) -> bool {
    &&& 1 <= r.len() <= MAX_CLOSURE_SZ_INTPTRS
    &&& header_sz(r[0]) == r.len()
}

/// The chain discipline: starting at `hd`, the buffer holds `n` whole
/// records laid end to end, finishing exactly at `tl`. When `wrap` is true
/// the run may once pass through a sentinel word (zero) and continue from
/// index zero; after that no second sentinel may occur.
spec fn wf_chain(buf: Seq<Word>, hd: int, tl: int, n: nat, wrap: bool) -> bool
    decreases n, (if wrap { 1int } else { 0int }),
{
    if n == 0 {
        hd == tl
    } else if wrap && 0 <= hd < buf.len() && buf[hd] == 0 {
        &&& WRAP_SENTINEL_LO <= hd
        &&& wf_chain(buf, 0, tl, n, false)
    } else {
        &&& 0 <= hd < buf.len()
        &&& buf[hd] != 0
        &&& 1 <= header_sz(buf[hd]) <= MAX_CLOSURE_SZ_INTPTRS
        &&& hd + header_sz(buf[hd]) < buf.len()
        &&& wf_chain(buf, hd + header_sz(buf[hd]), tl, (n - 1) as nat, wrap)
    }
}

/// The records the chain holds, oldest first, each with its header word.
spec fn chain_records(buf: Seq<Word>, hd: int, n: nat, wrap: bool) -> Seq<Seq<Word>>
    decreases n, (if wrap { 1int } else { 0int }),
{
    if n == 0 {
        Seq::empty()
    } else if wrap && 0 <= hd < buf.len() && buf[hd] == 0 {
        chain_records(buf, 0, n, false)
    } else {
        seq![buf.subrange(hd, hd + header_sz(buf[hd]))]
            + chain_records(buf, hd + header_sz(buf[hd]), (n - 1) as nat, wrap)
    }
}

/// The start index of each record the chain holds, oldest first.
spec fn chain_starts(buf: Seq<Word>, hd: int, n: nat, wrap: bool) -> Seq<int>
    decreases n, (if wrap { 1int } else { 0int }),
{
    if n == 0 {
        Seq::empty()
    } else if wrap && 0 <= hd < buf.len() && buf[hd] == 0 {
        chain_starts(buf, 0, n, false)
    } else {
        seq![hd] + chain_starts(buf, hd + header_sz(buf[hd]), (n - 1) as nat, wrap)
    }
}

/// Whether the chain passes through a wrap sentinel.
spec fn chain_wrapped(buf: Seq<Word>, hd: int, n: nat) -> bool
    decreases n,
{
    if n == 0 {
        false
    } else if 0 <= hd < buf.len() && buf[hd] == 0 {
        true
    } else {
        chain_wrapped(buf, hd + header_sz(buf[hd]), (n - 1) as nat)
    }
}

/// The index of the chain's wrap sentinel; meaningful only when the chain
/// wraps.
spec fn chain_sentinel(buf: Seq<Word>, hd: int, n: nat) -> int
    decreases n,
{
    if n == 0 {
        -1
    } else if 0 <= hd < buf.len() && buf[hd] == 0 {
        hd
    } else {
        chain_sentinel(buf, hd + header_sz(buf[hd]), (n - 1) as nat)
    }
}

/// Whether index `i` holds a word the chain relies on: a record word or the
/// sentinel.
spec fn chain_covers(buf: Seq<Word>, hd: int, n: nat, wrap: bool, i: int) -> bool
    decreases n, (if wrap { 1int } else { 0int }),
{
    if n == 0 {
        false
    } else if wrap && 0 <= hd < buf.len() && buf[hd] == 0 {
        i == hd || chain_covers(buf, 0, n, false, i)
    } else {
        (hd <= i < hd + header_sz(buf[hd])) || chain_covers(
            buf,
            hd + header_sz(buf[hd]),
            (n - 1) as nat,
            wrap,
            i,
        )
    }
}

/// A well-formed chain holds exactly `n` records and `n` start indices.
proof fn lemma_chain_len(buf: Seq<Word>, hd: int, tl: int, n: nat, wrap: bool)
    requires
        wf_chain(buf, hd, tl, n, wrap),
    ensures
        chain_records(buf, hd, n, wrap).len() == n,
        chain_starts(buf, hd, n, wrap).len() == n,
    decreases n, (if wrap { 1int } else { 0int }),
{
    if n == 0 {
    } else if wrap && 0 <= hd < buf.len() && buf[hd] == 0 {
        lemma_chain_len(buf, 0, tl, n, false);
    } else {
        lemma_chain_len(buf, hd + header_sz(buf[hd]), tl, (n - 1) as nat, wrap);
    }
}

/// A chain that has used up its wrap allowance is also a chain that still
/// holds it, with the same records: permission to wrap is only weakened.
proof fn lemma_chain_weaken(buf: Seq<Word>, hd: int, tl: int, n: nat)
    requires
        wf_chain(buf, hd, tl, n, false),
    ensures
        wf_chain(buf, hd, tl, n, true),
        chain_records(buf, hd, n, true) == chain_records(buf, hd, n, false),
        chain_starts(buf, hd, n, true) == chain_starts(buf, hd, n, false),
        !chain_wrapped(buf, hd, n),
    decreases n,
{
    if n == 0 {
    } else {
        lemma_chain_weaken(buf, hd + header_sz(buf[hd]), tl, (n - 1) as nat);
    }
}

/// Changing only words the chain does not rely on leaves the chain and its
/// records untouched.
proof fn lemma_chain_frame(
    buf1: Seq<Word>,
    buf2: Seq<Word>,
    hd: int,
    tl: int,
    n: nat,
    wrap: bool,
)
    requires
        buf2.len() == buf1.len(),
        wf_chain(buf1, hd, tl, n, wrap),
        forall|i: int| chain_covers(buf1, hd, n, wrap, i) ==> buf2[i] == buf1[i],
    ensures
        wf_chain(buf2, hd, tl, n, wrap),
        chain_records(buf2, hd, n, wrap) == chain_records(buf1, hd, n, wrap),
        chain_starts(buf2, hd, n, wrap) == chain_starts(buf1, hd, n, wrap),
        chain_wrapped(buf2, hd, n) == chain_wrapped(buf1, hd, n),
        chain_sentinel(buf2, hd, n) == chain_sentinel(buf1, hd, n),
    decreases n, (if wrap { 1int } else { 0int }),
{
    if n == 0 {
    } else if wrap && 0 <= hd < buf1.len() && buf1[hd] == 0 {
        assert(chain_covers(buf1, hd, n, wrap, hd));
        assert forall|i: int| chain_covers(buf1, 0, n, false, i) implies buf2[i] == buf1[i] by {
            assert(chain_covers(buf1, hd, n, wrap, i));
        }
        lemma_chain_frame(buf1, buf2, 0, tl, n, false);
    } else {
        let sz = header_sz(buf1[hd]);
        assert(chain_covers(buf1, hd, n, wrap, hd));
        assert forall|i: int| chain_covers(buf1, hd + sz, (n - 1) as nat, wrap, i) implies buf2[i]
            == buf1[i] by {
            assert(chain_covers(buf1, hd, n, wrap, i));
        }
        lemma_chain_frame(buf1, buf2, hd + sz, tl, (n - 1) as nat, wrap);
        assert forall|j: int| hd <= j < hd + sz implies buf2[j] == buf1[j] by {
            assert(chain_covers(buf1, hd, n, wrap, j));
        }
        assert(buf2.subrange(hd, hd + sz) =~= buf1.subrange(hd, hd + sz));
    }
}

/// Geometry of a chain that may not wrap: it runs monotonically from `hd`
/// up to `tl`, relying only on words in between, and spans at most one
/// maximal record (8 words, `MAX_CLOSURE_SZ_INTPTRS`) per record it holds.
proof fn lemma_chain_bounds_nowrap(buf: Seq<Word>, hd: int, tl: int, n: nat)
    requires
        wf_chain(buf, hd, tl, n, false),
    ensures
        hd <= tl,
        tl - hd <= 8 * n,
        forall|i: int| chain_covers(buf, hd, n, false, i) ==> hd <= i < tl,
    decreases n,
{
    if n == 0 {
    } else {
        let sz = header_sz(buf[hd]);
        lemma_chain_bounds_nowrap(buf, hd + sz, tl, (n - 1) as nat);
        assert forall|i: int| chain_covers(buf, hd, n, false, i) implies hd <= i < tl by {
            if !(hd <= i < hd + sz) {
                assert(chain_covers(buf, hd + sz, (n - 1) as nat, false, i));
            }
        }
    }
}

/// Geometry of a chain with its wrap allowance: either it has not wrapped
/// and runs from `hd` to `tl`, or it has, and splits into a run from `hd`
/// to a sentinel near the physical end plus a run from index zero to `tl`.
/// Either way the words it relies on total at most one maximal record per
/// record held.
proof fn lemma_chain_bounds(buf: Seq<Word>, hd: int, tl: int, n: nat)
    requires
        wf_chain(buf, hd, tl, n, true),
    ensures
        !chain_wrapped(buf, hd, n) ==> hd <= tl && tl - hd <= 8 * n,
        forall|i: int|
            !chain_wrapped(buf, hd, n) && chain_covers(buf, hd, n, true, i) ==> hd <= i < tl,
        chain_wrapped(buf, hd, n) ==> {
            let s = chain_sentinel(buf, hd, n);
            &&& hd <= s < buf.len()
            &&& WRAP_SENTINEL_LO <= s
            &&& buf[s] == 0
            &&& 0 <= tl
            &&& (s - hd) + tl <= 8 * n
        },
        forall|i: int|
            chain_wrapped(buf, hd, n) && chain_covers(buf, hd, n, true, i) ==> (hd <= i
                <= chain_sentinel(buf, hd, n) || 0 <= i < tl),
    decreases n,
{
    if n == 0 {
    } else if 0 <= hd < buf.len() && buf[hd] == 0 {
        lemma_chain_bounds_nowrap(buf, 0, tl, n);
        assert(chain_wrapped(buf, hd, n));
        assert(chain_sentinel(buf, hd, n) == hd);
        assert forall|i: int|
            chain_wrapped(buf, hd, n) && chain_covers(buf, hd, n, true, i) implies (hd <= i
            <= chain_sentinel(buf, hd, n) || 0 <= i < tl) by {
            if i != hd {
                assert(chain_covers(buf, 0, n, false, i));
            }
        }
    } else {
        let sz = header_sz(buf[hd]);
        let hd2 = hd + sz;
        lemma_chain_bounds(buf, hd2, tl, (n - 1) as nat);
        assert(chain_wrapped(buf, hd, n) == chain_wrapped(buf, hd2, (n - 1) as nat));
        if chain_wrapped(buf, hd, n) {
            assert(chain_sentinel(buf, hd, n) == chain_sentinel(buf, hd2, (n - 1) as nat));
            assert forall|i: int|
                chain_wrapped(buf, hd, n) && chain_covers(buf, hd, n, true, i) implies (hd <= i
                <= chain_sentinel(buf, hd, n) || 0 <= i < tl) by {
                if !(hd <= i < hd2) {
                    assert(chain_covers(buf, hd2, (n - 1) as nat, true, i));
                }
            }
        } else {
            assert forall|i: int|
                !chain_wrapped(buf, hd, n) && chain_covers(buf, hd, n, true, i) implies hd <= i
                < tl by {
                if !(hd <= i < hd2) {
                    assert(chain_covers(buf, hd2, (n - 1) as nat, true, i));
                }
            }
        }
    }
}

/// Appending a record in place at `tl` extends the chain by that record.
proof fn lemma_chain_append(buf: Seq<Word>, hd: int, tl: int, n: nat, wrap: bool)
    requires
        wf_chain(buf, hd, tl, n, wrap),
        0 <= tl < buf.len(),
        buf[tl] != 0,
        1 <= header_sz(buf[tl]) <= MAX_CLOSURE_SZ_INTPTRS,
        tl + header_sz(buf[tl]) < buf.len(),
    ensures
        wf_chain(buf, hd, tl + header_sz(buf[tl]), (n + 1) as nat, wrap),
        chain_records(buf, hd, (n + 1) as nat, wrap) == chain_records(buf, hd, n, wrap).push(
            buf.subrange(tl, tl + header_sz(buf[tl])),
        ),
        chain_starts(buf, hd, (n + 1) as nat, wrap) == chain_starts(buf, hd, n, wrap).push(tl),
        chain_wrapped(buf, hd, (n + 1) as nat) == chain_wrapped(buf, hd, n),
    decreases n, (if wrap { 1int } else { 0int }),
{
    let sznew = header_sz(buf[tl]);
    let rnew = buf.subrange(tl, tl + sznew);
    if n == 0 {
        assert(wf_chain(buf, tl + sznew, tl + sznew, 0, wrap));
        assert(!chain_wrapped(buf, tl + sznew, 0));
        assert(chain_records(buf, tl + sznew, 0, wrap) =~= Seq::<Seq<Word>>::empty());
        assert(chain_starts(buf, tl + sznew, 0, wrap) =~= Seq::<int>::empty());
        assert(chain_records(buf, hd, 1, wrap) =~= chain_records(buf, hd, 0, wrap).push(rnew));
        assert(chain_starts(buf, hd, 1, wrap) =~= chain_starts(buf, hd, 0, wrap).push(tl));
    } else if wrap && 0 <= hd < buf.len() && buf[hd] == 0 {
        lemma_chain_len(buf, 0, tl, n, false);
        lemma_chain_append(buf, 0, tl, n, false);
        assert(chain_records(buf, hd, (n + 1) as nat, wrap) == chain_records(
            buf,
            0,
            (n + 1) as nat,
            false,
        ));
        assert(chain_records(buf, hd, (n + 1) as nat, wrap) =~= chain_records(
            buf,
            hd,
            n,
            wrap,
        ).push(rnew));
        assert(chain_starts(buf, hd, (n + 1) as nat, wrap) =~= chain_starts(buf, hd, n, wrap).push(
            tl,
        ));
    } else {
        let sz = header_sz(buf[hd]);
        lemma_chain_len(buf, hd + sz, tl, (n - 1) as nat, wrap);
        lemma_chain_append(buf, hd + sz, tl, (n - 1) as nat, wrap);
        assert(chain_records(buf, hd, (n + 1) as nat, wrap) == seq![buf.subrange(hd, hd + sz)]
            + chain_records(buf, hd + sz, n, wrap));
        assert(chain_records(buf, hd, (n + 1) as nat, wrap) =~= chain_records(
            buf,
            hd,
            n,
            wrap,
        ).push(rnew));
        assert(chain_starts(buf, hd, (n + 1) as nat, wrap) =~= chain_starts(buf, hd, n, wrap).push(
            tl,
        ));
    }
}

/// Appending across the physical end: with a sentinel written at `tl` and a
/// record in place at index zero, a chain that had not yet wrapped extends
/// by that record and is now wrapped.
proof fn lemma_chain_wrap_append(buf: Seq<Word>, hd: int, tl: int, n: nat)
    requires
        wf_chain(buf, hd, tl, n, true),
        !chain_wrapped(buf, hd, n),
        0 <= tl < buf.len(),
        buf[tl] == 0,
        WRAP_SENTINEL_LO <= tl,
        0 < buf.len(),
        buf[0] != 0,
        1 <= header_sz(buf[0]) <= MAX_CLOSURE_SZ_INTPTRS,
        header_sz(buf[0]) < buf.len(),
    ensures
        wf_chain(buf, hd, header_sz(buf[0]), (n + 1) as nat, true),
        chain_records(buf, hd, (n + 1) as nat, true) == chain_records(buf, hd, n, true).push(
            buf.subrange(0, header_sz(buf[0])),
        ),
        chain_starts(buf, hd, (n + 1) as nat, true) == chain_starts(buf, hd, n, true).push(0),
        chain_wrapped(buf, hd, (n + 1) as nat),
    decreases n,
{
    let sz0 = header_sz(buf[0]);
    let rnew = buf.subrange(0, sz0);
    if n == 0 {
        assert(wf_chain(buf, sz0, sz0, 0, false));
        assert(wf_chain(buf, 0, sz0, 1, false));
        assert(wf_chain(buf, hd, sz0, 1, true));
        assert(chain_records(buf, sz0, 0, false) =~= Seq::<Seq<Word>>::empty());
        assert(chain_starts(buf, sz0, 0, false) =~= Seq::<int>::empty());
        assert(chain_records(buf, 0, 1, false) =~= seq![rnew]);
        assert(chain_starts(buf, 0, 1, false) =~= seq![0int]);
        assert(chain_records(buf, hd, 1, true) == chain_records(buf, 0, 1, false));
        assert(chain_starts(buf, hd, 1, true) == chain_starts(buf, 0, 1, false));
        assert(chain_records(buf, hd, 1, true) =~= chain_records(buf, hd, 0, true).push(rnew));
        assert(chain_starts(buf, hd, 1, true) =~= chain_starts(buf, hd, 0, true).push(0));
    } else {
        let sz = header_sz(buf[hd]);
        lemma_chain_len(buf, hd + sz, tl, (n - 1) as nat, true);
        lemma_chain_wrap_append(buf, hd + sz, tl, (n - 1) as nat);
        assert(chain_records(buf, hd, (n + 1) as nat, true) == seq![buf.subrange(hd, hd + sz)]
            + chain_records(buf, hd + sz, n, true));
        assert(chain_records(buf, hd, (n + 1) as nat, true) =~= chain_records(
            buf,
            hd,
            n,
            true,
        ).push(rnew));
        assert(chain_starts(buf, hd, (n + 1) as nat, true) =~= chain_starts(buf, hd, n, true).push(
            0,
        ));
    }
}

/// A valid record standing whole and contiguous in the buffer, starting at
/// index `s`.
pub open spec fn record_at(buf: Seq<Word>, s: int, r: Seq<Word>) -> bool {
    &&& 0 <= s
    &&& s + r.len() <= buf.len()
    &&& r == buf.subrange(s, s + r.len())
    &&& valid_record(r)
}

/// Every record a well-formed chain holds is a valid record, standing whole
/// and contiguous in the buffer at its start index.
proof fn lemma_chain_records_form(buf: Seq<Word>, hd: int, tl: int, n: nat, wrap: bool)
    requires
        wf_chain(buf, hd, tl, n, wrap),
    ensures
        forall|j: int|
            0 <= j < n ==> #[trigger] record_at(
                buf,
                chain_starts(buf, hd, n, wrap)[j],
                chain_records(buf, hd, n, wrap)[j],
            ),
    decreases n, (if wrap { 1int } else { 0int }),
{
    lemma_chain_len(buf, hd, tl, n, wrap);
    if n == 0 {
    } else if wrap && 0 <= hd < buf.len() && buf[hd] == 0 {
        lemma_chain_records_form(buf, 0, tl, n, false);
        assert(chain_starts(buf, hd, n, wrap) == chain_starts(buf, 0, n, false));
        assert(chain_records(buf, hd, n, wrap) == chain_records(buf, 0, n, false));
        assert forall|j: int| 0 <= j < n implies #[trigger] record_at(
            buf,
            chain_starts(buf, hd, n, wrap)[j],
            chain_records(buf, hd, n, wrap)[j],
        ) by {
            assert(record_at(buf, chain_starts(buf, 0, n, false)[j], chain_records(buf, 0, n, false)[j]));
        }
    } else {
        let sz = header_sz(buf[hd]);
        lemma_chain_records_form(buf, hd + sz, tl, (n - 1) as nat, wrap);
        let ss = chain_starts(buf, hd, n, wrap);
        let rr = chain_records(buf, hd, n, wrap);
        assert forall|j: int| 0 <= j < n implies #[trigger] record_at(buf, ss[j], rr[j]) by {
            if j == 0 {
                assert(rr[0] == buf.subrange(hd, hd + sz));
                assert(rr[0].len() == sz);
                assert(rr[0][0] == buf[hd]);
            } else {
                let ss1 = chain_starts(buf, hd + sz, (n - 1) as nat, wrap);
                let rr1 = chain_records(buf, hd + sz, (n - 1) as nat, wrap);
                assert(ss[j] == ss1[j - 1]);
                assert(rr[j] == rr1[j - 1]);
                assert(record_at(buf, ss1[j - 1], rr1[j - 1]));
            }
        }
    }
}

/// The circular work queue: a fixed backing array of words, head and tail
/// cursors in words, and a logical length in records.
pub struct WorkQueue {
    queue: Vec<Word>,
    queue_hd: usize,
    queue_tl: usize,
    queue_len: usize,
}

impl View for WorkQueue {
    type V = Seq<Seq<Word>>;

    /// The pending records, oldest first, each whole with its header word.
    closed spec fn view(&self) -> Seq<Seq<Word>> {
        chain_records(self.queue@, self.queue_hd as int, self.queue_len as nat, true)
    }
}

impl WorkQueue {
    /// The backing array's contents.
    pub closed spec fn storage(self) -> Seq<Word> {
        self.queue@
    }

    /// The start index of each pending record in the backing array, oldest
    /// first.
    pub closed spec fn record_starts(self) -> Seq<int> {
        chain_starts(self.queue@, self.queue_hd as int, self.queue_len as nat, true)
    }

    /// Well-formedness: the backing array has its fixed length, the cursors
    /// are in bounds, at most one record of headroom is in use beyond the
    /// nominal capacity, and the pending records obey the chain discipline.
    pub closed spec fn wf(self) -> bool {
        &&& self.queue@.len() == WORK_QUEUE_CAP_INTPTRS
        &&& self.queue_hd < WORK_QUEUE_CAP_INTPTRS
        &&& self.queue_tl < WORK_QUEUE_CAP_INTPTRS
        &&& self.queue_len <= WORK_QUEUE_CAP + 1
        &&& wf_chain(
            self.queue@,
            self.queue_hd as int,
            self.queue_tl as int,
            self.queue_len as nat,
            true,
        )
    }

    /// A fresh, empty queue with all cursors at zero.
    pub fn new() -> (q: WorkQueue)
        ensures
            q.wf(),
            q@ == Seq::<Seq<Word>>::empty(),
    {
        let mut queue: Vec<Word> = Vec::new();
        let mut i: usize = 0;
        while i < WORK_QUEUE_CAP_INTPTRS
            invariant
                queue@.len() == i,
                i <= WORK_QUEUE_CAP_INTPTRS,
            decreases WORK_QUEUE_CAP_INTPTRS - i,
        {
            queue.push(0);
            i = i + 1;
        }
        WorkQueue { queue, queue_hd: 0, queue_tl: 0, queue_len: 0 }
    }

    /// The number of pending records.
    pub fn len(&self) -> (n: usize)
        requires
            self.wf(),
        ensures
            n == self@.len(),
    {
        proof {
            lemma_chain_len(
                self.queue@,
                self.queue_hd as int,
                self.queue_tl as int,
                self.queue_len as nat,
                true,
            );
        }
        self.queue_len
    }

    /// No-split law: every pending record stands whole and contiguous in the
    /// backing array at its start index — a wrap happens only between
    /// records, never inside one.
    pub proof fn lemma_records_contiguous(self)
        requires
            self.wf(),
        ensures
            self.record_starts().len() == self@.len(),
            forall|j: int|
                0 <= j < self@.len() ==> #[trigger] record_at(
                    self.storage(),
                    self.record_starts()[j],
                    self@[j],
                ),
    {
        lemma_chain_len(
            self.queue@,
            self.queue_hd as int,
            self.queue_tl as int,
            self.queue_len as nat,
            true,
        );
        lemma_chain_records_form(
            self.queue@,
            self.queue_hd as int,
            self.queue_tl as int,
            self.queue_len as nat,
            true,
        );
    }

    /// Appends one whole record at the tail. If the record would not fit
    /// before the physical end, a sentinel word is written at the tail and
    /// the record is placed at index zero instead: a record is never split.
    /// The reserved slack guarantees the tail can never overrun the head.
    pub fn enqueue(&mut self, record: &Vec<Word>)
        requires
            old(self).wf(),
            old(self)@.len() <= WORK_QUEUE_CAP,
            valid_record(record@),
        ensures
            final(self).wf(),
            final(self)@ == old(self)@.push(record@),
    {
        let ghost buf0: Seq<Word> = self.queue@;
        let ghost hd0: int = self.queue_hd as int;
        let ghost tl0: int = self.queue_tl as int;
        let ghost n0: nat = self.queue_len as nat;
        proof {
            lemma_chain_len(buf0, hd0, tl0, n0, true);
            lemma_chain_bounds(buf0, hd0, tl0, n0);
            crate::header::lemma_header_nonzero(record@[0]);
        }
        let sz: usize = record.len();
        let tl: usize = self.queue_tl;
        let new_tl: usize = tl + sz;
        if new_tl < WORK_QUEUE_CAP_INTPTRS {
            let mut i: usize = 0;
            while i < sz
                invariant
                    i <= sz,
                    sz == record@.len(),
                    tl + sz < WORK_QUEUE_CAP_INTPTRS,
                    self.queue@.len() == WORK_QUEUE_CAP_INTPTRS,
                    buf0.len() == WORK_QUEUE_CAP_INTPTRS,
                    self.queue_hd as int == hd0,
                    self.queue_tl as int == tl as int,
                    self.queue_len as nat == n0,
                    forall|j: int| 0 <= j < i ==> self.queue@[tl + j] == record@[j],
                    forall|j: int|
                        0 <= j < buf0.len() && !(tl <= j < tl + i) ==> self.queue@[j] == buf0[j],
                decreases sz - i,
            {
                self.queue.set(tl + i, record[i]);
                i = i + 1;
            }
            proof {
                let buf2 = self.queue@;
                assert forall|k: int| chain_covers(buf0, hd0, n0, true, k) implies buf2[k]
                    == buf0[k] by {
                    if chain_wrapped(buf0, hd0, n0) {
                        assert(hd0 <= k <= chain_sentinel(buf0, hd0, n0) || 0 <= k < tl0);
                        assert(tl0 + sz <= hd0);
                    } else {
                        assert(hd0 <= k < tl0);
                    }
                }
                lemma_chain_frame(buf0, buf2, hd0, tl0, n0, true);
                assert(buf2[tl as int] == record@[0]);
                assert(header_sz(buf2[tl as int]) == sz);
                lemma_chain_append(buf2, hd0, tl0, n0, true);
                assert(buf2.subrange(tl as int, tl + sz) =~= record@);
            }
            self.queue_tl = new_tl;
            self.queue_len = self.queue_len + 1;
        } else {
            proof {
                if chain_wrapped(buf0, hd0, n0) {
                    assert(tl0 <= 8 * n0 + hd0 - chain_sentinel(buf0, hd0, n0));
                    assert(false);
                }
            }
            self.queue.set(tl, 0);
            let ghost buf1: Seq<Word> = self.queue@;
            let mut i: usize = 0;
            while i < sz
                invariant
                    i <= sz,
                    sz == record@.len(),
                    1 <= sz <= MAX_CLOSURE_SZ_INTPTRS,
                    WRAP_SENTINEL_LO <= tl < WORK_QUEUE_CAP_INTPTRS,
                    self.queue@.len() == WORK_QUEUE_CAP_INTPTRS,
                    buf0.len() == WORK_QUEUE_CAP_INTPTRS,
                    self.queue_hd as int == hd0,
                    self.queue_tl as int == tl as int,
                    self.queue_len as nat == n0,
                    self.queue@[tl as int] == 0,
                    forall|j: int| 0 <= j < i ==> self.queue@[j] == record@[j],
                    forall|j: int|
                        0 <= j < buf0.len() && !(0 <= j < i) && j != tl ==> self.queue@[j]
                            == buf0[j],
                decreases sz - i,
            {
                self.queue.set(i, record[i]);
                i = i + 1;
            }
            proof {
                let buf2 = self.queue@;
                assert(hd0 >= tl0 - 8 * n0);
                assert(sz <= hd0);
                assert forall|k: int| chain_covers(buf0, hd0, n0, true, k) implies buf2[k]
                    == buf0[k] by {
                    assert(hd0 <= k < tl0);
                }
                lemma_chain_frame(buf0, buf2, hd0, tl0, n0, true);
                assert(buf2[0] == record@[0]);
                assert(header_sz(buf2[0]) == sz);
                lemma_chain_wrap_append(buf2, hd0, tl0, n0);
                assert(buf2.subrange(0, sz as int) =~= record@);
            }
            self.queue_tl = sz;
            self.queue_len = self.queue_len + 1;
        }
    }

    /// Removes the oldest record and returns it whole, header word included.
    /// A sentinel at the head resets the head to index zero before the
    /// record is read.
    pub fn dequeue(&mut self) -> (rec: Vec<Word>)
        requires
            old(self).wf(),
            old(self)@.len() > 0,
        ensures
            final(self).wf(),
            final(self)@ == old(self)@.skip(1),
            rec@ == old(self)@[0],
            valid_record(rec@),
    {
        let ghost buf0: Seq<Word> = self.queue@;
        let ghost hd0: int = self.queue_hd as int;
        let ghost tl0: int = self.queue_tl as int;
        let ghost n0: nat = self.queue_len as nat;
        proof {
            lemma_chain_len(buf0, hd0, tl0, n0, true);
        }
        let mut hd: usize = self.queue_hd;
        if self.queue[hd] == 0 {
            hd = 0;
        }
        proof {
            if buf0[hd0] == 0 {
                assert(wf_chain(buf0, 0, tl0, n0, false));
            }
        }
        let header: Word = self.queue[hd];
        let hr = crate::header::read_closure_header(header);
        let sz: usize = hr.1;
        let ghost hdg: int = hd as int;
        let mut rec: Vec<Word> = Vec::new();
        let mut i: usize = 0;
        while i < sz
            invariant
                i <= sz,
                hdg == hd as int,
                hd + sz < WORK_QUEUE_CAP_INTPTRS,
                self.queue@.len() == WORK_QUEUE_CAP_INTPTRS,
                self.queue@ == buf0,
                rec@ == buf0.subrange(hdg, hdg + i),
            decreases sz - i,
        {
            rec.push(self.queue[hd + i]);
            i = i + 1;
        }
        self.queue_hd = hd + sz;
        self.queue_len = self.queue_len - 1;
        proof {
            if buf0[hd0] == 0 {
                lemma_chain_weaken(buf0, hdg + sz, tl0, (n0 - 1) as nat);
                assert(chain_records(buf0, hd0, n0, true) == chain_records(buf0, 0, n0, false));
            }
            lemma_chain_len(buf0, hdg + sz, tl0, (n0 - 1) as nat, true);
            assert(rec@ == buf0.subrange(hdg, hdg + sz));
            assert(final(self)@ =~= old(self)@.skip(1));
        }
        rec
    }
}

} // verus!
