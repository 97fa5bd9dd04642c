//! Argument-capture mechanism: per capture-list shape, the conversion of a
//! typed capture tuple to the words a record stores, and the reconstruction
//! of the tuple from a whole record at invocation time.
//!
//! The shapes are the tuples of up to `MAX_CLOSURE_CAPTURES` word-convertible
//! values. The core guarantee is the round trip: the words written at
//! schedule time read back as exactly the captures that were scheduled.

use vstd::prelude::*;

use crate::codec::{BasicallyAnIntptr, Word};

verus! {

/// A capture-list shape: a tuple of word-convertible values that can be
/// written into a record and read back from it.
pub trait ClosureArgsInner: Sized {
    /// The number of captured values in this shape.
    spec fn arity() -> nat;

    /// The captured values converted to words, in declaration order.
    spec fn words_spec(self) -> Seq<Word>;

    /// The values reconstructed from the captured words.
    spec fn read_spec(ws: Seq<Word>) -> Self;

    /// Capture round-trip law: exactly `arity` words are written, and
    /// reading them back is the identity.
    proof fn lemma_captures_round_trip(self)
        ensures
            self.words_spec().len() == Self::arity(),
            Self::read_spec(self.words_spec()) == self,
    ;

    /// Converts the captures to the words a record stores.
    fn write_closure_fn_args(self) -> (ws: Vec<Word>)
        ensures
            ws@ == self.words_spec(),
            ws@.len() == Self::arity(),
    ;

    /// Reads the captures back from a whole record: the header word sits at
    /// offset zero, the captures at offsets one and up.
    fn read_closure_fn_args(record: &Vec<Word>) -> (r: Self)
        requires
            record@.len() >= Self::arity() + 1,
        ensures
            r == Self::read_spec(record@.subrange(1, (Self::arity() + 1) as int)),
    ;
}

impl ClosureArgsInner for () {
    open spec fn arity() -> nat {
        0
    }

    open spec fn words_spec(self) -> Seq<Word> {
        Seq::empty()
    }

    open spec fn read_spec(ws: Seq<Word>) -> Self {
        ()
    }

    proof fn lemma_captures_round_trip(self) {
    }

    fn write_closure_fn_args(self) -> (ws: Vec<Word>) {
        let ws: Vec<Word> = Vec::new();
        proof {
            assert(ws@ =~= self.words_spec());
        }
        ws
    }

    fn read_closure_fn_args(record: &Vec<Word>) -> (r: Self) {
        ()
    }
}

impl<T0: BasicallyAnIntptr> ClosureArgsInner for (T0,) {
    open spec fn arity() -> nat {
        1
    }

    open spec fn words_spec(self) -> Seq<Word> {
        seq![self.0.to_word_spec()]
    }

    open spec fn read_spec(ws: Seq<Word>) -> Self {
        (T0::from_word_spec(ws[0]),)
    }

    proof fn lemma_captures_round_trip(self) {
        self.0.lemma_word_round_trip();
    }

    fn write_closure_fn_args(self) -> (ws: Vec<Word>) {
        let mut ws: Vec<Word> = Vec::new();
        ws.push(self.0.into_intptr());
        proof {
            assert(ws@ =~= self.words_spec());
        }
        ws
    }

    fn read_closure_fn_args(record: &Vec<Word>) -> (r: Self) {
        (T0::from_intptr(record[1]),)
    }
}

impl<T0: BasicallyAnIntptr, T1: BasicallyAnIntptr> ClosureArgsInner for (T0, T1) {
    open spec fn arity() -> nat {
        2
    }

    open spec fn words_spec(self) -> Seq<Word> {
        seq![self.0.to_word_spec(), self.1.to_word_spec()]
    }

    open spec fn read_spec(ws: Seq<Word>) -> Self {
        (T0::from_word_spec(ws[0]), T1::from_word_spec(ws[1]))
    }

    proof fn lemma_captures_round_trip(self) {
        self.0.lemma_word_round_trip();
        self.1.lemma_word_round_trip();
    }

    fn write_closure_fn_args(self) -> (ws: Vec<Word>) {
        let mut ws: Vec<Word> = Vec::new();
        ws.push(self.0.into_intptr());
        ws.push(self.1.into_intptr());
        proof {
            assert(ws@ =~= self.words_spec());
        }
        ws
    }

    fn read_closure_fn_args(record: &Vec<Word>) -> (r: Self) {
        (T0::from_intptr(record[1]), T1::from_intptr(record[2]))
    }
}

impl<T0: BasicallyAnIntptr, T1: BasicallyAnIntptr, T2: BasicallyAnIntptr> ClosureArgsInner for (
    T0,
    T1,
    T2,
) {
    open spec fn arity() -> nat {
        3
    }

    open spec fn words_spec(self) -> Seq<Word> {
        seq![self.0.to_word_spec(), self.1.to_word_spec(), self.2.to_word_spec()]
    }

    open spec fn read_spec(ws: Seq<Word>) -> Self {
        (T0::from_word_spec(ws[0]), T1::from_word_spec(ws[1]), T2::from_word_spec(ws[2]))
    }

    proof fn lemma_captures_round_trip(self) {
        self.0.lemma_word_round_trip();
        self.1.lemma_word_round_trip();
        self.2.lemma_word_round_trip();
    }

    fn write_closure_fn_args(self) -> (ws: Vec<Word>) {
        let mut ws: Vec<Word> = Vec::new();
        ws.push(self.0.into_intptr());
        ws.push(self.1.into_intptr());
        ws.push(self.2.into_intptr());
        proof {
            assert(ws@ =~= self.words_spec());
        }
        ws
    }

    fn read_closure_fn_args(record: &Vec<Word>) -> (r: Self) {
        (T0::from_intptr(record[1]), T1::from_intptr(record[2]), T2::from_intptr(record[3]))
    }
}

impl<
    T0: BasicallyAnIntptr,
    T1: BasicallyAnIntptr,
    T2: BasicallyAnIntptr,
    T3: BasicallyAnIntptr,
> ClosureArgsInner for (T0, T1, T2, T3) {
    open spec fn arity() -> nat {
        4
    }

    open spec fn words_spec(self) -> Seq<Word> {
        seq![
            self.0.to_word_spec(),
            self.1.to_word_spec(),
            self.2.to_word_spec(),
            self.3.to_word_spec(),
        ]
    }

    open spec fn read_spec(ws: Seq<Word>) -> Self {
        (
            T0::from_word_spec(ws[0]),
            T1::from_word_spec(ws[1]),
            T2::from_word_spec(ws[2]),
            T3::from_word_spec(ws[3]),
        )
    }

    proof fn lemma_captures_round_trip(self) {
        self.0.lemma_word_round_trip();
        self.1.lemma_word_round_trip();
        self.2.lemma_word_round_trip();
        self.3.lemma_word_round_trip();
    }

    fn write_closure_fn_args(self) -> (ws: Vec<Word>) {
        let mut ws: Vec<Word> = Vec::new();
        ws.push(self.0.into_intptr());
        ws.push(self.1.into_intptr());
        ws.push(self.2.into_intptr());
        ws.push(self.3.into_intptr());
        proof {
            assert(ws@ =~= self.words_spec());
        }
        ws
    }

    fn read_closure_fn_args(record: &Vec<Word>) -> (r: Self) {
        (
            T0::from_intptr(record[1]),
            T1::from_intptr(record[2]),
            T2::from_intptr(record[3]),
            T3::from_intptr(record[4]),
        )
    }
}

impl<
    T0: BasicallyAnIntptr,
    T1: BasicallyAnIntptr,
    T2: BasicallyAnIntptr,
    T3: BasicallyAnIntptr,
    T4: BasicallyAnIntptr,
> ClosureArgsInner for (T0, T1, T2, T3, T4) {
    open spec fn arity() -> nat {
        5
    }

    open spec fn words_spec(self) -> Seq<Word> {
        seq![
            self.0.to_word_spec(),
            self.1.to_word_spec(),
            self.2.to_word_spec(),
            self.3.to_word_spec(),
            self.4.to_word_spec(),
        ]
    }

    open spec fn read_spec(ws: Seq<Word>) -> Self {
        (
            T0::from_word_spec(ws[0]),
            T1::from_word_spec(ws[1]),
            T2::from_word_spec(ws[2]),
            T3::from_word_spec(ws[3]),
            T4::from_word_spec(ws[4]),
        )
    }

    proof fn lemma_captures_round_trip(self) {
        self.0.lemma_word_round_trip();
        self.1.lemma_word_round_trip();
        self.2.lemma_word_round_trip();
        self.3.lemma_word_round_trip();
        self.4.lemma_word_round_trip();
    }

    fn write_closure_fn_args(self) -> (ws: Vec<Word>) {
        let mut ws: Vec<Word> = Vec::new();
        ws.push(self.0.into_intptr());
        ws.push(self.1.into_intptr());
        ws.push(self.2.into_intptr());
        ws.push(self.3.into_intptr());
        ws.push(self.4.into_intptr());
        proof {
            assert(ws@ =~= self.words_spec());
        }
        ws
    }

    fn read_closure_fn_args(record: &Vec<Word>) -> (r: Self) {
        (
            T0::from_intptr(record[1]),
            T1::from_intptr(record[2]),
            T2::from_intptr(record[3]),
            T3::from_intptr(record[4]),
            T4::from_intptr(record[5]),
        )
    }
}

impl<
    T0: BasicallyAnIntptr,
    T1: BasicallyAnIntptr,
    T2: BasicallyAnIntptr,
    T3: BasicallyAnIntptr,
    T4: BasicallyAnIntptr,
    T5: BasicallyAnIntptr,
> ClosureArgsInner for (T0, T1, T2, T3, T4, T5) {
    open spec fn arity() -> nat {
        6
    }

    open spec fn words_spec(self) -> Seq<Word> {
        seq![
            self.0.to_word_spec(),
            self.1.to_word_spec(),
            self.2.to_word_spec(),
            self.3.to_word_spec(),
            self.4.to_word_spec(),
            self.5.to_word_spec(),
        ]
    }

    open spec fn read_spec(ws: Seq<Word>) -> Self {
        (
            T0::from_word_spec(ws[0]),
            T1::from_word_spec(ws[1]),
            T2::from_word_spec(ws[2]),
            T3::from_word_spec(ws[3]),
            T4::from_word_spec(ws[4]),
            T5::from_word_spec(ws[5]),
        )
    }

    proof fn lemma_captures_round_trip(self) {
        self.0.lemma_word_round_trip();
        self.1.lemma_word_round_trip();
        self.2.lemma_word_round_trip();
        self.3.lemma_word_round_trip();
        self.4.lemma_word_round_trip();
        self.5.lemma_word_round_trip();
    }

    fn write_closure_fn_args(self) -> (ws: Vec<Word>) {
        let mut ws: Vec<Word> = Vec::new();
        ws.push(self.0.into_intptr());
        ws.push(self.1.into_intptr());
        ws.push(self.2.into_intptr());
        ws.push(self.3.into_intptr());
        ws.push(self.4.into_intptr());
        ws.push(self.5.into_intptr());
        proof {
            assert(ws@ =~= self.words_spec());
        }
        ws
    }

    fn read_closure_fn_args(record: &Vec<Word>) -> (r: Self) {
        (
            T0::from_intptr(record[1]),
            T1::from_intptr(record[2]),
            T2::from_intptr(record[3]),
            T3::from_intptr(record[4]),
            T4::from_intptr(record[5]),
            T5::from_intptr(record[6]),
        )
    }
}

impl<
    T0: BasicallyAnIntptr,
    T1: BasicallyAnIntptr,
    T2: BasicallyAnIntptr,
    T3: BasicallyAnIntptr,
    T4: BasicallyAnIntptr,
    T5: BasicallyAnIntptr,
    T6: BasicallyAnIntptr,
> ClosureArgsInner for (T0, T1, T2, T3, T4, T5, T6) {
    open spec fn arity() -> nat {
        7
    }

    open spec fn words_spec(self) -> Seq<Word> {
        seq![
            self.0.to_word_spec(),
            self.1.to_word_spec(),
            self.2.to_word_spec(),
            self.3.to_word_spec(),
            self.4.to_word_spec(),
            self.5.to_word_spec(),
            self.6.to_word_spec(),
        ]
    }

    open spec fn read_spec(ws: Seq<Word>) -> Self {
        (
            T0::from_word_spec(ws[0]),
            T1::from_word_spec(ws[1]),
            T2::from_word_spec(ws[2]),
            T3::from_word_spec(ws[3]),
            T4::from_word_spec(ws[4]),
            T5::from_word_spec(ws[5]),
            T6::from_word_spec(ws[6]),
        )
    }

    proof fn lemma_captures_round_trip(self) {
        self.0.lemma_word_round_trip();
        self.1.lemma_word_round_trip();
        self.2.lemma_word_round_trip();
        self.3.lemma_word_round_trip();
        self.4.lemma_word_round_trip();
        self.5.lemma_word_round_trip();
        self.6.lemma_word_round_trip();
    }

    fn write_closure_fn_args(self) -> (ws: Vec<Word>) {
        let mut ws: Vec<Word> = Vec::new();
        ws.push(self.0.into_intptr());
        ws.push(self.1.into_intptr());
        ws.push(self.2.into_intptr());
        ws.push(self.3.into_intptr());
        ws.push(self.4.into_intptr());
        ws.push(self.5.into_intptr());
        ws.push(self.6.into_intptr());
        proof {
            assert(ws@ =~= self.words_spec());
        }
        ws
    }

    fn read_closure_fn_args(record: &Vec<Word>) -> (r: Self) {
        (
            T0::from_intptr(record[1]),
            T1::from_intptr(record[2]),
            T2::from_intptr(record[3]),
            T3::from_intptr(record[4]),
            T4::from_intptr(record[5]),
            T5::from_intptr(record[6]),
            T6::from_intptr(record[7]),
        )
    }
}

} // verus!
