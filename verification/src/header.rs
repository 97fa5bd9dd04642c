//! Header codec: packs a function word and a record's word count into one
//! machine word, and unpacks it losslessly.
//!
//! The record's total word count (at most 127, so 7 bits) lives in the top 7
//! bits of the header; the function word's low 57 bits fill the rest. Decoding
//! recovers the function word by shifting left 7 then arithmetically right 7,
//! which clears the count and sign-extends bit 56, reproducing every function
//! word that is representable as a 57-bit signed value.

use vstd::prelude::*;

use crate::codec::Word;

verus! {

/// Mask keeping the low 57 bits of a word: the part of a header that carries
/// the function word.
pub const HEADER_FN_MASK: i64 = 0x01ff_ffff_ffff_ffff;

/// The size field of a header word: the record's total word count, header
/// word included.
pub open spec fn header_sz(h: Word) -> int {
    ((h as u64) >> 57) as int
}

/// The function word a header decodes to: the low 57 bits, sign-extended
/// from bit 56.
pub open spec fn header_fn(h: Word) -> Word {
    (h << 7) >> 7
}

/// The header built from a function word and a record word count.
pub open spec fn make_header_spec(func: Word, sz: u64) -> Word {
    (func & HEADER_FN_MASK) | ((sz << 57) as i64)
}

/// A function word that survives the header round trip: one representable as
/// a 57-bit signed value, so that sign-extending bit 56 reproduces it. Real
/// function addresses satisfy this: their top bits are all zero or all one.
pub open spec fn fn_word_canonical(func: Word) -> bool {
    -0x0100_0000_0000_0000 <= func < 0x0100_0000_0000_0000
}

/// The size field of any header is below 128: it occupies 7 bits.
pub proof fn lemma_header_sz_bounds(h: Word)
    ensures
        0 <= header_sz(h) < 128,
{
    assert((h as u64) >> 57 < 128) by (bit_vector);
}

/// The size field written by `make_header_spec` reads back exactly, for
/// every function word.
pub proof fn lemma_header_sz_exact(func: Word, sz: u64)
    requires
        sz < 128,
    ensures
        header_sz(make_header_spec(func, sz)) == sz,
{
    assert((make_header_spec(func, sz) as u64) >> 57 == sz) by (bit_vector)
        requires
            sz < 128,
    ;
}

/// Header round-trip law: for every canonical function word and every word
/// count below 128, decoding the packed header returns both exactly.
pub proof fn lemma_header_round_trip(func: Word, sz: u64)
    requires
        sz < 128,
        fn_word_canonical(func),
    ensures
        header_fn(make_header_spec(func, sz)) == func,
        header_sz(make_header_spec(func, sz)) == sz,
{
    lemma_header_sz_exact(func, sz);
    assert(((make_header_spec(func, sz)) << 7) >> 7 == func) by (bit_vector)
        requires
            sz < 128,
            -0x0100_0000_0000_0000 <= func < 0x0100_0000_0000_0000,
    ;
}

/// A header whose size field is nonzero is itself nonzero, so the zero word
/// is free to serve as the buffer's wrap sentinel.
pub proof fn lemma_header_nonzero(h: Word)
    requires
        header_sz(h) >= 1,
    ensures
        h != 0,
{
    assert((0i64 as u64) >> 57 == 0) by (bit_vector);
}

/// Packs a function word and a record word count into one header word.
///
/// The top 7 bits of `func`'s word representation are cleared and the count
/// is written there. A count of 128 or more would corrupt the header, so it
/// is excluded outright rather than silently truncated.
pub fn make_closure_header(func: Word, sz_intptrs: usize) -> (h: Word)
    requires
        sz_intptrs < 128,
    ensures
        h == make_header_spec(func, sz_intptrs as u64),
{
    let sz: u64 = sz_intptrs as u64;
    (func & HEADER_FN_MASK) | (#[verifier::truncate] ((sz << 57) as i64))
}

/// Unpacks a header word into its function word and record word count.
pub fn read_closure_header(h: Word) -> (r: (Word, usize))
    ensures
        r.0 == header_fn(h),
        r.1 as int == header_sz(h),
        r.1 < 128,
{
    proof {
        lemma_header_sz_bounds(h);
    }
    let sz_intptrs: usize = ((#[verifier::truncate] (h as u64)) >> 57) as usize;
    let func: Word = (h << 7) >> 7;
    (func, sz_intptrs)
}

} // verus!
