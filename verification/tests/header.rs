//! Header-codec round trips: canonical function words and every edge of the
//! 7-bit size field.

use lbs::header::{make_closure_header, read_closure_header};

#[test]
fn header_round_trip_zero() {
    let h = make_closure_header(0, 0);
    let (f, sz) = read_closure_header(h);
    assert_eq!(f, 0);
    assert_eq!(sz, 0);
}

#[test]
fn header_round_trip_typical() {
    let func: i64 = 0x0012_3456_789a_bcde;
    let h = make_closure_header(func, 8);
    let (f, sz) = read_closure_header(h);
    assert_eq!(f, func);
    assert_eq!(sz, 8);
}

#[test]
fn header_round_trip_max_size() {
    // The largest canonical positive function word: 2^56 - 1.
    let func: i64 = 0x00ff_ffff_ffff_ffff;
    let h = make_closure_header(func, 127);
    let (f, sz) = read_closure_header(h);
    assert_eq!(f, func);
    assert_eq!(sz, 127);
}

#[test]
fn header_round_trip_negative_canonical() {
    // Function words with all top bits set survive via sign extension.
    for func in [-1i64, -0x0100_0000_0000_0000, -0x0042_4242_4242_4242] {
        let h = make_closure_header(func, 5);
        let (f, sz) = read_closure_header(h);
        assert_eq!(f, func);
        assert_eq!(sz, 5);
    }
}

#[test]
fn header_bit_layout_exact() {
    // The documented layout: bits 0..=56 hold the function word's low bits,
    // bits 57..=63 hold the record's word count.
    let h = make_closure_header(0x1234, 3);
    assert_eq!(h as u64, (3u64 << 57) | 0x1234);
    let h2 = make_closure_header(-1, 2);
    assert_eq!(h2 as u64, (2u64 << 57) | 0x01ff_ffff_ffff_ffff);
}

#[test]
fn header_nonzero_when_sized() {
    // A header with a nonzero size field can never collide with the wrap
    // sentinel, which is the zero word.
    for sz in 1usize..128 {
        assert_ne!(make_closure_header(0, sz), 0);
    }
}
