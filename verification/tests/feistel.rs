use griffon::blockcipher::{FeistelBuilder, FeistelFBuilder, KeyScheduleBuilder};

#[test]
fn f_function_records_each_step() {
    let f = FeistelFBuilder::new()
        .expand(|b: u32| (b as u64) << 1)
        .key_mix(|e: u64, k: u64| e + k)
        .substitute(|e: u64| (e & 0xffff) as u32)
        .permute(|b: u32| b.rotate_left(4))
        .build();
    let (out, t) = f.call(0x10, 3);
    assert_eq!(t.after_expand, 0x20);
    assert_eq!(t.after_key_mix, 0x23);
    assert_eq!(t.after_substitute, 0x23);
    assert_eq!(t.after_permute, 0x230);
    assert_eq!(out, 0x230);
}

#[test]
fn key_schedule_steps_through_rounds() {
    let ks = KeyScheduleBuilder::new()
        .init(|mk: u64| mk * 2)
        .step(|s: u64, round: usize| (s + 1, s * 100 + round as u64))
        .build();
    let mut keys = ks.for_key(5);
    assert_eq!(keys.next(), 1000);
    assert_eq!(keys.next(), 1101);
    assert_eq!(keys.next(), 1202);
    let mut again = ks.for_key(5);
    assert_eq!(again.next(), 1000);
}

#[test]
fn feistel_run_records_history() {
    let f = FeistelFBuilder::new()
        .expand(|b: u32| b as u64)
        .key_mix(|e: u64, k: u64| e ^ k)
        .substitute(|e: u64| e as u32)
        .permute(|b: u32| b)
        .build();
    let mut feistel = FeistelBuilder::new().xor(|l: u32, r: u32| l ^ r).f(f).rounds(3).build();
    let ks = KeyScheduleBuilder::new()
        .init(|mk: u64| mk)
        .step(|s: u64, round: usize| (s, s + round as u64))
        .build();
    let mut keys = ks.for_key(10);
    let (l, r) = feistel.run(1, 2, &mut keys);
    let h = feistel.get_history();
    assert_eq!(h.len(), 3);
    assert_eq!((h[0].round, h[0].left, h[0].right, h[0].round_key), (0, 1, 2, 10));
    assert_eq!((h[1].round, h[1].left, h[1].right, h[1].round_key), (1, 2, 1 ^ (2 ^ 10), 11));
    assert_eq!(h[2].left, h[1].right);
    assert_eq!(h[2].right, h[1].left ^ h[1].f_trace.after_permute);
    assert_eq!(l, h[2].right);
    assert_eq!(r, h[2].left ^ h[2].f_trace.after_permute);
    assert_eq!(keys.next(), 13);
}

#[test]
fn feistel_defaults_to_sixteen_rounds_and_inverts() {
    let make = || {
        FeistelFBuilder::new()
            .expand(|b: u32| (b as u64).wrapping_mul(0x9e37_79b9))
            .key_mix(|e: u64, k: u64| e ^ k)
            .substitute(|e: u64| (e >> 7) as u32)
            .permute(|b: u32| b.rotate_left(3))
            .build()
    };
    let mut enc = FeistelBuilder::new().xor(|l: u32, r: u32| l ^ r).f(make()).build();
    let ks = KeyScheduleBuilder::new()
        .init(|mk: u64| mk)
        .step(|s: u64, round: usize| (s, s.rotate_left(round as u32)))
        .build();
    let (l, r) = enc.run(0xdead_beef, 0x0123_4567, &mut ks.for_key(42));
    assert_eq!(enc.get_history().len(), 16);
    // running the rounds with the keys reversed on the swapped output undoes them
    let rev = KeyScheduleBuilder::new()
        .init(|mk: u64| mk)
        .step(|s: u64, round: usize| (s, s.rotate_left((15 - round) as u32)))
        .build();
    let mut dec = FeistelBuilder::new().xor(|l: u32, r: u32| l ^ r).f(make()).build();
    let (l2, r2) = dec.run(r, l, &mut rev.for_key(42));
    assert_eq!((r2, l2), (0xdead_beef, 0x0123_4567));
}
