//! Word codec: conversion between scalar values and the queue's universal
//! storage unit, a pointer-width signed machine word.

use vstd::prelude::*;

verus! {

/// The queue's atomic storage unit: a 64-bit signed machine word, the width
/// of a pointer on the targets this library supports.
pub type Word = i64;

/// A value that fits in one machine word, bit for bit.
///
/// `from_intptr(into_intptr(v))` returns `v` exactly, for every representable
/// value: the conversion is a lossless reinterpretation of the word's bits,
/// never a range check. The reader must already know the original type; no
/// runtime tag is stored. Address-like values travel as `usize` words;
/// converting between them and raw pointers is the caller's business, at
/// the unverified edge where the pointers live.
pub trait BasicallyAnIntptr: Copy + Sized {
    /// The word that `into_intptr` produces.
    spec fn to_word_spec(self) -> Word;

    /// The value that `from_intptr` reconstructs from a word.
    spec fn from_word_spec(w: Word) -> Self;

    /// Round-trip law: converting to a word and back is the identity.
    proof fn lemma_word_round_trip(self)
        ensures
            Self::from_word_spec(self.to_word_spec()) == self,
    ;

    fn into_intptr(self) -> (w: Word)
        ensures
            w == self.to_word_spec(),
    ;

    fn from_intptr(w: Word) -> (v: Self)
        ensures
            v == Self::from_word_spec(w),
    ;
}

impl BasicallyAnIntptr for i64 {
    open spec fn to_word_spec(self) -> Word {
        self
    }

    open spec fn from_word_spec(w: Word) -> Self {
        w
    }

    proof fn lemma_word_round_trip(self) {
    }

    fn into_intptr(self) -> (w: Word) {
        self
    }

    fn from_intptr(w: Word) -> (v: Self) {
        w
    }
}

impl BasicallyAnIntptr for u64 {
    open spec fn to_word_spec(self) -> Word {
        self as i64
    }

    open spec fn from_word_spec(w: Word) -> Self {
        w as u64
    }

    proof fn lemma_word_round_trip(self) {
        assert(((self as i64) as u64) == self) by (bit_vector);
    }

    fn into_intptr(self) -> (w: Word) {
        #[verifier::truncate] (self as i64)
    }

    fn from_intptr(w: Word) -> (v: Self) {
        #[verifier::truncate] (w as u64)
    }
}

impl BasicallyAnIntptr for usize {
    open spec fn to_word_spec(self) -> Word {
        self as i64
    }

    open spec fn from_word_spec(w: Word) -> Self {
        w as usize
    }

    proof fn lemma_word_round_trip(self) {
        assert(((self as i64) as usize) == self) by (bit_vector);
    }

    fn into_intptr(self) -> (w: Word) {
        #[verifier::truncate] (self as i64)
    }

    fn from_intptr(w: Word) -> (v: Self) {
        #[verifier::truncate] (w as usize)
    }
}

impl BasicallyAnIntptr for isize {
    open spec fn to_word_spec(self) -> Word {
        self as i64
    }

    open spec fn from_word_spec(w: Word) -> Self {
        w as isize
    }

    proof fn lemma_word_round_trip(self) {
        assert(((self as i64) as isize) == self) by (bit_vector);
    }

    fn into_intptr(self) -> (w: Word) {
        self as i64
    }

    fn from_intptr(w: Word) -> (v: Self) {
        w as isize
    }
}

} // verus!
