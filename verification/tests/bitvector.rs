use griffon::bitvector::BitVector;

#[test]
fn test_simple_shl() {
    let mut is: BitVector<128> = BitVector::new();
    is.add(&[0x0123_4567_89AB_CDEF, 0x0123_4567_89AB_CDEF]);
    is = is.shl(8);
    let should = vec![0x23_4567_89AB_CDEF_00, 0x23_4567_89AB_CDEF_01u64];
    assert_eq!(is.0, should);
}

#[test]
fn test_simple_shr() {
    let mut is: BitVector<128> = BitVector::new();
    is.add(&[0x0123_4567_89AB_CDEF, 0x0123_4567_89AB_CDEF]);
    is = is.shr(8);
    let should = vec![0xEF_0123_4567_89AB_CD, 0x000123_4567_89AB_CDu64];
    assert_eq!(is.0, should);
}

#[test]
fn test_multi_round_shl() {
    let mut is: BitVector<128> = BitVector::new();
    is.add(&[0x0123_4567_89AB_CDEF, 0x0123_4567_89AB_CDEF]);
    is = is.shl(128 + 8);
    let should = vec![0x23_4567_89AB_CDEF_00, 0x23_4567_89AB_CDEF_01u64];
    assert_eq!(is.0, should);
}

#[test]
fn test_multi_round_shr() {
    let mut is: BitVector<128> = BitVector::new();
    is.add(&[0x0123_4567_89AB_CDEF, 0x0123_4567_89AB_CDEF]);
    is = is.shr(128 + 8);
    let should = vec![0xEF_0123_4567_89AB_CD, 0x000123_4567_89AB_CDu64];
    assert_eq!(is.0, should);
}

fn value(words: &[u64]) -> u128 {
    ((words[1] as u128) << 64) | words[0] as u128
}

#[test]
fn shl_matches_wide_integer_shift() {
    let words = [0x8000_0000_0000_0001u64, 0x7fff_ffff_ffff_fff3u64];
    for k in [1usize, 7, 33, 63] {
        let mut v: BitVector<128> = BitVector::new();
        v.add(&words);
        let v = v.shl(k);
        assert_eq!(value(&v.0), value(&words) << k);
    }
}

#[test]
fn shr_matches_wide_integer_shift() {
    let words = [0x8000_0000_0000_0001u64, 0x7fff_ffff_ffff_fff3u64];
    for k in [1usize, 7, 33, 63] {
        let mut v: BitVector<128> = BitVector::new();
        v.add(&words);
        let v = v.shr(k);
        assert_eq!(value(&v.0), value(&words) >> k);
    }
}

#[test]
fn shift_by_width_is_identity() {
    let mut v: BitVector<128> = BitVector::new();
    v.add(&[5, 6]);
    let v = v.shl(128);
    assert_eq!(v.0, vec![5, 6]);
    let v = v.shr(256);
    assert_eq!(v.0, vec![5, 6]);
}

#[test]
fn empty_vector_shifts_to_empty() {
    let v: BitVector<128> = BitVector::new();
    let v = v.shl(100);
    assert!(v.0.is_empty());
    let v = v.shr(100);
    assert!(v.0.is_empty());
}

#[test]
fn add_appends_words() {
    let mut v: BitVector<192> = BitVector::new();
    v.add(&[1, 2]);
    v.add(&[3]);
    assert_eq!(v.0, vec![1, 2, 3]);
}

#[test]
fn single_word_shift_drops_high_bits() {
    let mut v: BitVector<64> = BitVector::new();
    v.add(&[0xF000_0000_0000_000F]);
    let v = v.shl(4);
    assert_eq!(v.0, vec![0x0000_0000_0000_00F0]);
}
