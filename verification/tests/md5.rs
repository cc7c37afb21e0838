use griffon::md5::{
    first_addition_mod, first_f, foruth_f, key_addition_mod, last_addition_mod, left_rotation,
    msg_addition_mod, round_end_mix, second_f, third_f, Msg, MD5, IV, K, S,
};

#[test]
fn simple_new_msg() {
    let it = vec![0xFF; 63];
    let mut should = vec![0xFF; 63];
    should.push(0b1000_0000);
    should.extend(vec![0u8; 56]);
    should.extend(504u64.to_le_bytes());
    assert_eq!(Msg::new(it).padded_msg(), should)
}

#[test]
fn simple_iter() {
    let it = vec![0xFF, 0x0, 0xFF, 0x0];
    assert_eq!(Msg::new(it).iter().into_iter().next().unwrap(), 0xFF00FF00);
}

#[test]
fn padding_fills_whole_blocks() {
    for len in [0usize, 1, 55, 57, 63, 64, 100, 119, 121] {
        let m = vec![0xABu8; len];
        let p = Msg::new(m.clone()).padded_msg();
        assert_eq!(p.len() % 64, 0, "length {}", len);
        assert_eq!(&p[..len], &m[..]);
        assert_eq!(p[len], 0x80);
        assert!(p[len + 1..p.len() - 8].iter().all(|b| *b == 0));
        assert_eq!(&p[p.len() - 8..], &((len * 8) as u64).to_le_bytes());
    }
}

#[test]
fn empty_message_pads_to_one_block() {
    let p = Msg::new(vec![]).padded_msg();
    let mut should = vec![0x80u8];
    should.extend(vec![0u8; 63]);
    assert_eq!(p, should);
}

#[test]
fn words_are_big_endian() {
    let msg = Msg::new(vec![0x01, 0x02, 0x03, 0x04, 0x05]);
    let words = msg.iter();
    assert_eq!(words.len(), 16);
    assert_eq!(words[0], 0x0102_0304);
    assert_eq!(words[1], 0x0580_0000);
    assert_eq!(words[14], 0x2800_0000);
}

#[test]
fn additions_reduce_or_mask() {
    assert_eq!(first_addition_mod(5, 7, 8), 4);
    assert_eq!(first_addition_mod(1, 2, 3), 0);
    assert_eq!(msg_addition_mod(100, 28, 64), 0);
    assert_eq!(msg_addition_mod(10, 4, 5), 4);
    assert_eq!(msg_addition_mod(10, 5, 6), 5);
    assert_eq!(key_addition_mod(3, 4, u32::MAX), 6);
    assert_eq!(key_addition_mod(u32::MAX - 1, 1, u32::MAX), u32::MAX - 1);
    assert_eq!(last_addition_mod(0x8000_0000, 1, 0x1_0000), 1);
    assert_eq!(last_addition_mod(20, 3, 1), 0);
}

#[test]
fn left_rotation_shifts() {
    assert_eq!(left_rotation(0x8000_0001, 1), 2);
    assert_eq!(left_rotation(1, 31), 0x8000_0000);
}

#[test]
fn round_helpers() {
    assert_eq!(round_end_mix(1, 2, 3, 4), (4, 1, 2, 3));
    assert_eq!(first_f(0xF0, 0xCC, 0xAA), (0xF0 & 0xCC) | (!0xF0u32 ^ 0xAA));
    assert_eq!(second_f(0xF0, 0xCC, 0xAA), (0xF0 & 0xAA) | (0xCC ^ !0xAAu32));
    assert_eq!(third_f(0xF0, 0xCC, 0xAA), 0xF0 ^ 0xCC ^ 0xAA);
    assert_eq!(foruth_f(0xF0, 0xCC, 0xAA), 0xCC ^ (0xF0 & !0xAAu32));
}

#[test]
fn md5_constants() {
    MD5::run();
    assert_eq!(K[0], 0xd76aa478);
    assert_eq!(IV[3], 0x10325476);
    assert_eq!(S[63], 21);
}
