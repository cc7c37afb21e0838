use griffon::blockcipher::{FeistelFBuilder, KeyScheduleBuilder};
use griffon::des::nist_des::{
    expansion, final_permutation, initial_permutation, key_schedule_init, key_schedule_step,
    p_permutation, permute, rotate28, split_block, substitute, swap_combine,
};
use griffon::{canonical_builder, DESBuilder, DESTraceEntry, LRKey};

const PLAINTEXT: u64 = 0x0123_4567_89AB_CDEF;
const KEY: u64 = 0x1334_5779_9BBC_DFF1;

#[test]
fn des_nist_vector() {
    let mut des = canonical_builder().build(KEY);
    let (ciphertext, trace) = des.encrypt(PLAINTEXT);
    assert_eq!(ciphertext, 0x85e8_1354_0f0a_b405);
    assert_eq!(trace.len(), 18);
    match &trace[0] {
        DESTraceEntry::IP { input, output } => {
            assert_eq!(*input, PLAINTEXT);
            assert_eq!(*output, 0xcc00_ccff_f0aa_f0aa);
        }
        _ => panic!("first entry is not the initial permutation"),
    }
    match &trace[1] {
        DESTraceEntry::Round(r) => {
            assert_eq!(r.round, 0);
            assert_eq!(r.left, 0xcc00_ccff);
            assert_eq!(r.right, 0xf0aa_f0aa);
            assert_eq!(r.round_key, 0x1b02_effc_7072);
            assert_eq!(r.f_trace.after_expand, 0x7a15_557a_1555);
            assert_eq!(r.f_trace.after_key_mix, 0x6117_ba86_6527);
            assert_eq!(r.f_trace.after_substitute, 0x5c82_b597);
            assert_eq!(r.f_trace.after_permute, 0x234a_a9bb);
        }
        _ => panic!("second entry is not a round"),
    }
    match &trace[2] {
        DESTraceEntry::Round(r) => {
            assert_eq!(r.round, 1);
            assert_eq!(r.left, 0xf0aa_f0aa);
            assert_eq!(r.right, 0xef4a_6544);
            assert_eq!(r.round_key, 0x79ae_d9db_c9e5);
            assert_eq!(r.f_trace.after_expand, 0x75ea_5430_aa09);
            assert_eq!(r.f_trace.after_key_mix, 0x0c44_8deb_63ec);
            assert_eq!(r.f_trace.after_substitute, 0xf8d0_3aae);
            assert_eq!(r.f_trace.after_permute, 0x3cab_87a3);
        }
        _ => panic!("third entry is not a round"),
    }
    match &trace[17] {
        DESTraceEntry::FP { output, .. } => assert_eq!(*output, ciphertext),
        _ => panic!("last entry is not the final permutation"),
    }
}

#[test]
fn des_rounds_chain_halves() {
    let mut des = canonical_builder().build(KEY);
    let (_, trace) = des.encrypt(PLAINTEXT);
    for i in 1..16 {
        let (prev, next) = match (&trace[i], &trace[i + 1]) {
            (DESTraceEntry::Round(a), DESTraceEntry::Round(b)) => (*a, *b),
            _ => panic!("not a round"),
        };
        assert_eq!(next.left, prev.right);
        assert_eq!(next.right, prev.left ^ prev.f_trace.after_permute);
        assert_eq!(next.round, prev.round + 1);
    }
}

#[test]
fn des_encrypt_twice_gives_same_trace() {
    let mut des = canonical_builder().build(KEY);
    let (c1, t1) = des.encrypt(PLAINTEXT);
    let (c2, t2) = des.encrypt(PLAINTEXT);
    assert_eq!(c1, c2);
    assert_eq!(format!("{:?}", t1), format!("{:?}", t2));
    assert_eq!(des.encrypt(0).1.len(), 18);
}

#[test]
fn des_with_fewer_rounds() {
    let mut des = canonical_builder().rounds(2).build(KEY);
    let (_, trace) = des.encrypt(PLAINTEXT);
    assert_eq!(trace.len(), 4);
    let mut none = canonical_builder().rounds(0).build(KEY);
    let (c, trace) = none.encrypt(PLAINTEXT);
    assert_eq!(trace.len(), 2);
    // no rounds: the halves are only swapped between the permutations
    let ip = initial_permutation(PLAINTEXT);
    let (l, r) = split_block(ip);
    assert_eq!(c, final_permutation(swap_combine(l, r)));
}

#[test]
fn permutations_are_inverse() {
    for x in [0u64, 1, PLAINTEXT, u64::MAX, 0x8000_0000_0000_0000] {
        assert_eq!(final_permutation(initial_permutation(x)), x);
        assert_eq!(initial_permutation(final_permutation(x)), x);
    }
}

#[test]
fn permute_picks_table_bits() {
    // bit 1 is the most significant bit of the block
    assert_eq!(permute(0b1000, &[1, 4], 4), 0b10);
    assert_eq!(permute(0b0001, &[1, 4], 4), 0b01);
    assert_eq!(permute(0b0110, &[3, 2, 2], 4), 0b111);
    assert_eq!(permute(0xFF, &[0, 9], 8), 0);
}

#[test]
fn f_function_parts() {
    assert_eq!(expansion(0xf0aa_f0aa), 0x7a15_557a_1555);
    assert_eq!(substitute(0x6117_ba86_6527), 0x5c82_b597);
    assert_eq!(p_permutation(0x5c82_b597), 0x234a_a9bb);
    assert_eq!(rotate28(0x800_0001, 1), 0x000_0003);
    assert_eq!(rotate28(0xC00_0000, 2), 0x000_0003);
}

#[test]
fn key_schedule_first_rounds() {
    let s0 = key_schedule_init(KEY);
    assert_eq!(s0.left, 0xf0c_caaf);
    assert_eq!(s0.right, 0x556_678f);
    let (s1, k1) = key_schedule_step(s0, 0);
    assert_eq!(s1.left, 0xe19_955f);
    assert_eq!(s1.right, 0xaac_cf1e);
    assert_eq!(k1, 0x1b02_effc_7072);
    let (_, k2) = key_schedule_step(s1, 1);
    assert_eq!(k2, 0x79ae_d9db_c9e5);
}

#[test]
fn lrkey_pack_and_unpack() {
    let k = LRKey { left: 0xf0c_caaf, right: 0x556_678f };
    assert_eq!(k.to_u64(), 0xf0c_caaf_556_678f);
    let back = LRKey::from_u64(0xf0c_caaf_556_678f);
    assert_eq!(back.left, 0xf0c_caaf);
    assert_eq!(back.right, 0xf556_678f);
    assert_eq!(back.to_u64(), 0xf0c_caaf_556_678f);
    assert_eq!(LRKey::from_u64(u64::MAX).left, u32::MAX);
}

#[test]
fn lrkey_debug_string() {
    let k = LRKey { left: 0xabc, right: 0x1234567 };
    assert_eq!(k.debug_string(), "LRKey { left: 0x0000abc, right: 0x1234567 }");
}

#[test]
fn custom_des_from_parts() {
    let f = FeistelFBuilder::new()
        .expand(|b: u32| b as u64)
        .key_mix(|e: u64, k: u64| e ^ k)
        .substitute(|e: u64| e as u32)
        .permute(|b: u32| b)
        .build();
    let ks = KeyScheduleBuilder::new()
        .init(|k: u64| k)
        .step(|s: u64, _round: usize| (s, s))
        .build();
    let mut des = DESBuilder::new()
        .ip(|x: u64| x)
        .ip_inv(|x: u64| x)
        .split(|x: u64| ((x >> 32) as u32, x as u32))
        .combine(|l: u32, r: u32| ((l as u64) << 32) | r as u64)
        .key_schedule(ks)
        .f(f)
        .rounds(1)
        .build(0xff);
    // one round: (l, r) -> (r, l ^ (r ^ 0xff))
    let (c, trace) = des.encrypt(0x0000_0001_0000_0002);
    assert_eq!(c, 0x0000_0002_0000_00fc);
    assert_eq!(trace.len(), 3);
}
