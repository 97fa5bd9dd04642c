//! Word-codec round trips on concrete values of every supported type.

use lbs::codec::BasicallyAnIntptr;

#[test]
fn round_trip_i64() {
    for v in [0i64, 1, -1, 42, i64::MIN, i64::MAX, 0x0123_4567_89ab_cdef] {
        let w = v.into_intptr();
        assert_eq!(i64::from_intptr(w), v);
    }
}

#[test]
fn round_trip_u64() {
    for v in [0u64, 1, u64::MAX, 0x8000_0000_0000_0000, 0xdead_beef_cafe_f00d] {
        let w = v.into_intptr();
        assert_eq!(u64::from_intptr(w), v);
    }
}

#[test]
fn round_trip_usize() {
    for v in [0usize, 1, usize::MAX, 0x7fff_ffff, 0xdead_beef] {
        let w = v.into_intptr();
        assert_eq!(usize::from_intptr(w), v);
    }
}

#[test]
fn round_trip_isize() {
    for v in [0isize, -1, isize::MIN, isize::MAX, -0x1234_5678] {
        let w = v.into_intptr();
        assert_eq!(isize::from_intptr(w), v);
    }
}
