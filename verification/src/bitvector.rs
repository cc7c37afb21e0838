//! `BitVector<N>`: a wide value stored as 64-bit words, word 0 the least
//! significant, with logical shifts across word boundaries.
use vstd::arithmetic::div_mod::*;
use vstd::arithmetic::power2::*;
use vstd::bits::*;
use vstd::prelude::*;

verus! {

/// The number that a sequence of words stands for: word 0 is the least
/// significant.
pub open spec fn words_value(ws: Seq<u64>) -> nat
    decreases ws.len(),
{
    if ws.len() == 0 {
        0
    } else {
        ws[0] as nat + pow2(64) * words_value(ws.drop_first())
    }
}

/// The word that a left shift by `k` bits (0 < k < 64) leaves at a position
/// holding `w`, whose lower neighbour holds `prev`.
pub open spec fn shl_word(w: u64, prev: u64, k: nat) -> u64 {
    (w << (k as u64)) | (prev >> ((64 - k) as u64))
}

/// The word that a right shift by `k` bits (0 < k < 64) leaves at a position
/// holding `w`, whose upper neighbour holds `next`.
pub open spec fn shr_word(w: u64, next: u64, k: nat) -> u64 {
    (w >> (k as u64)) | (next << ((64 - k) as u64))
}

/// The words of a left shift by `k` bits, the bits shifted in below word 0
/// taken from `carry`.
pub open spec fn shl_words_from(ws: Seq<u64>, k: nat, carry: u64) -> Seq<u64> {
    Seq::new(ws.len(), |i: int| shl_word(ws[i], if i == 0 { carry } else { ws[i - 1] }, k))
}

/// The words of `ws` shifted left by `k` bits (k < 64): zeros come in at
/// the bottom, the bits shifted out of the top word are dropped.
pub open spec fn shl_words(ws: Seq<u64>, k: nat) -> Seq<u64> {
    if k == 0 {
        ws
    } else {
        shl_words_from(ws, k, 0)
    }
}

/// The words of `ws` shifted right by `k` bits (k < 64): zeros come in at
/// the top, the bits shifted out of word 0 are dropped.
pub open spec fn shr_words(ws: Seq<u64>, k: nat) -> Seq<u64> {
    if k == 0 {
        ws
    } else {
        Seq::new(
            ws.len(),
            |i: int| shr_word(ws[i], if i + 1 < ws.len() { ws[i + 1] } else { 0 }, k),
        )
    }
}

/// `a * 2^k` split into the part that stays in a 64-bit word after `a << k`
/// and the part shifted out of it.
proof fn lemma_shl_split(a: u64, k: nat)
    requires
        0 < k < 64,
    ensures
        a * pow2(k) == (a << (k as u64)) + (a >> ((64 - k) as u64)) * pow2(64),
{
    let j: nat = (64 - k) as nat;
    let pk = pow2(k);
    let pj = pow2(j);
    lemma_pow2_pos(k);
    lemma_pow2_pos(j);
    lemma_pow2_adds(k, j);
    lemma2_to64_rest();
    let ku: u64 = k as u64;
    assert(a << ku == (a & (u64::MAX >> ku)) << ku) by (bit_vector)
        requires
            0 < ku < 64,
    ;
    // u64::MAX >> k is the mask of the low (64 - k) bits
    lemma_u64_shr_is_div(u64::MAX, k as u64);
    assert(u64::MAX as nat == (pj - 1) * pk + (pk - 1)) by (nonlinear_arith)
        requires
            pk * pj == 0x10000000000000000nat,
            u64::MAX == 0xffffffffffffffffnat,
    ;
    lemma_fundamental_div_mod_converse_div(u64::MAX as int, pk as int, (pj - 1) as int, (pk - 1) as int);
    assert(u64::MAX >> (k as u64) == low_bits_mask(j) as u64);
    lemma_u64_low_bits_mask_is_mod(a, j);
    lemma_u64_pow2_no_overflow(j);
    let lo: u64 = a & (u64::MAX >> (k as u64));
    assert(lo as nat == a as nat % pj);
    lemma_mod_bound(a as int, pj as int);
    assert(lo * pk <= u64::MAX) by (nonlinear_arith)
        requires
            lo < pj,
            pk * pj == 0x10000000000000000nat,
            u64::MAX == 0xffffffffffffffffnat,
            pk > 0,
    ;
    lemma_u64_shl_is_mul(lo, k as u64);
    lemma_u64_shr_is_div(a, j as u64);
    lemma_fundamental_div_mod(a as int, pj as int);
    let hi = a as nat / pj;
    assert(a * pk == (lo * pk) + hi * pow2(64)) by (nonlinear_arith)
        requires
            a == pj * hi + lo,
            pk * pj == pow2(64),
    ;
}

/// `b << (64 - k)` keeps exactly the low `k` bits of `b`, moved to the top.
proof fn lemma_shr_carry(b: u64, k: nat)
    requires
        0 < k < 64,
    ensures
        (b << ((64 - k) as u64)) as nat == (b as nat % pow2(k)) * pow2((64 - k) as nat),
{
    let j: nat = (64 - k) as nat;
    let pk = pow2(k);
    let pj = pow2(j);
    lemma_pow2_pos(k);
    lemma_pow2_adds(j, k);
    lemma_shl_split(b, j);
    assert(64 - j == k);
    lemma_u64_shr_is_div(b, k as u64);
    lemma_fundamental_div_mod(b as int, pk as int);
    let q = b as nat / pk;
    let r = b as nat % pk;
    assert((b << (j as u64)) as nat == r * pj) by (nonlinear_arith)
        requires
            b * pj == (b << (j as u64)) + q * pow2(64),
            b == pk * q + r,
            pj * pk == pow2(64),
    ;
}

/// A word sequence stands for less than `2^(64 * len)`.
pub proof fn lemma_words_value_bound(ws: Seq<u64>)
    ensures
        words_value(ws) < pow2(64 * ws.len()),
    decreases ws.len(),
{
    if ws.len() == 0 {
        lemma2_to64();
    } else {
        let t = ws.drop_first();
        lemma_words_value_bound(t);
        lemma_pow2_adds(64, 64 * t.len());
        lemma2_to64_rest();
        assert(64 * ws.len() == 64 + 64 * t.len());
        let vt = words_value(t);
        let pt = pow2(64 * t.len());
        assert(ws[0] as nat + pow2(64) * vt < pow2(64) * pt) by (nonlinear_arith)
            requires
                vt < pt,
                ws[0] < pow2(64),
        ;
    }
}

/// The value of a left shift with carry-in, together with the bits carried
/// out of the top word, is the shifted value.
proof fn lemma_shl_from_value(ws: Seq<u64>, k: nat, c: u64)
    requires
        0 < k < 64,
    ensures
        ({
            let co = if ws.len() == 0 { c >> ((64 - k) as u64) } else { ws.last() >> ((64 - k) as u64) };
            words_value(shl_words_from(ws, k, c)) + co * pow2(64 * ws.len())
                == words_value(ws) * pow2(k) + (c >> ((64 - k) as u64))
        }),
    decreases ws.len(),
{
    let res = shl_words_from(ws, k, c);
    if ws.len() == 0 {
        lemma2_to64();
        assert(words_value(res) == 0);
        let cc = c >> ((64 - k) as u64);
        assert(cc * pow2(0) == cc);
        assert(words_value(ws) == 0);
        assert(words_value(ws) * pow2(k) == 0) by (nonlinear_arith)
            requires
                words_value(ws) == 0,
        ;
    } else {
        let a = ws[0];
        let t = ws.drop_first();
        lemma_shl_from_value(t, k, a);
        assert(res.drop_first() =~= shl_words_from(t, k, a));
        let co = ws.last() >> ((64 - k) as u64);
        let cc = c >> ((64 - k) as u64);
        let ac = a >> ((64 - k) as u64);
        let al = a << (k as u64);
        if t.len() > 0 {
            assert(t.last() == ws.last());
        }
        assert(res[0] == shl_word(a, c, k));
        let ku: u64 = k as u64;
        let ju: u64 = (64 - k) as u64;
        assert(al | cc == al + cc) by (bit_vector)
            requires
                0 < ku < 64,
                ju == 64 - ku,
                al == a << ku,
                cc == c >> ju,
        ;
        lemma_shl_split(a, k);
        lemma_pow2_adds(64, 64 * t.len());
        assert(64 * ws.len() == 64 + 64 * t.len());
        let r = words_value(res);
        let rt = words_value(res.drop_first());
        let vt = words_value(t);
        let p64 = pow2(64);
        let pt = pow2(64 * t.len());
        let pk = pow2(k);
        assert(r == al + cc + p64 * rt);
        assert(r + co * (p64 * pt) == (a + p64 * vt) * pk + cc) by (nonlinear_arith)
            requires
                rt + co * pt == vt * pk + ac,
                r == al + cc + p64 * rt,
                a * pk == al + ac * p64,
        ;
    }
}

/// The value of a right shift of the words by `k` bits is the value divided
/// by `2^k`.
proof fn lemma_shr_value(ws: Seq<u64>, k: nat)
    requires
        0 < k < 64,
    ensures
        words_value(shr_words(ws, k)) == words_value(ws) / pow2(k),
    decreases ws.len(),
{
    let res = shr_words(ws, k);
    lemma_pow2_pos(k);
    if ws.len() == 0 {
        assert(words_value(res) == 0);
        lemma_div_of0(pow2(k) as int);
    } else {
        let a = ws[0];
        let an = a as nat;
        let t = ws.drop_first();
        lemma_shr_value(t, k);
        assert(res.drop_first() =~= shr_words(t, k));
        let b: u64 = if t.len() > 0 { t[0] } else { 0 };
        assert(res[0] == shr_word(a, b, k));
        let ah = a >> (k as u64);
        let bl = b << ((64 - k) as u64);
        let ku: u64 = k as u64;
        let ju: u64 = (64 - k) as u64;
        assert(ah | bl == ah + bl) by (bit_vector)
            requires
                0 < ku < 64,
                ju == 64 - ku,
                ah == a >> ku,
                bl == b << ju,
        ;
        lemma_shr_carry(b, k);
        lemma_u64_shr_is_div(a, k as u64);
        let j: nat = (64 - k) as nat;
        let pk = pow2(k);
        let pj = pow2(j);
        let p64 = pow2(64);
        lemma_pow2_adds(k, j);
        let vt = words_value(t);
        let rt = words_value(res.drop_first());
        // the low k bits of the tail's value are those of its first word
        assert(vt % pk == (b as nat) % pk) by {
            if t.len() > 0 {
                let m = pj * words_value(t.drop_first());
                assert(vt == pk * m + b) by (nonlinear_arith)
                    requires
                        vt == b + p64 * words_value(t.drop_first()),
                        m == pj * words_value(t.drop_first()),
                        p64 == pk * pj,
                ;
                lemma_mod_multiples_vanish(m as int, b as int, pk as int);
            }
        }
        lemma_fundamental_div_mod(vt as int, pk as int);
        lemma_fundamental_div_mod(a as int, pk as int);
        lemma_mod_bound(a as int, pk as int);
        let q = vt / pk;
        let r = vt % pk;
        let big = p64 * q + pj * r + an / pk;
        assert((an + p64 * vt) == big * pk + an % pk) by (nonlinear_arith)
            requires
                vt == pk * q + r,
                an == pk * (an / pk) + an % pk,
                p64 == pk * pj,
                big == p64 * q + pj * r + an / pk,
        ;
        lemma_fundamental_div_mod_converse_div((an + p64 * vt) as int, pk as int, big as int, (an % pk) as int);
        assert(words_value(res) == ah + bl + p64 * rt);
        assert(words_value(ws) == an + p64 * vt);
        assert(bl == pj * r) by (nonlinear_arith)
            requires
                bl == ((b as nat) % pk) * pj,
                r == (b as nat) % pk,
        ;
        assert(words_value(res) == big);
    }
}

/// The value of the words shifted left by `k` bits (k < 64) is the value
/// times `2^k`, reduced modulo `2^(64 * len)`.
pub proof fn lemma_shl_value(ws: Seq<u64>, k: nat)
    requires
        k < 64,
    ensures
        words_value(shl_words(ws, k)) == (words_value(ws) * pow2(k)) % pow2(64 * ws.len()),
{
    let d = pow2(64 * ws.len());
    lemma_pow2_pos(64 * ws.len());
    lemma_words_value_bound(ws);
    if k == 0 {
        lemma2_to64();
        lemma_small_mod(words_value(ws), d);
    } else {
        lemma_shl_from_value(ws, k, 0);
        let ju: u64 = (64 - k) as u64;
        assert(0u64 >> ju == 0) by (bit_vector);
        lemma_words_value_bound(shl_words(ws, k));
        let co = if ws.len() == 0 { 0u64 >> ((64 - k) as u64) } else { ws.last() >> ((64 - k) as u64) };
        lemma_fundamental_div_mod_converse_mod(
            (words_value(ws) * pow2(k)) as int,
            d as int,
            co as int,
            words_value(shl_words(ws, k)) as int,
        );
    }
}

/// A shift by `rhs + n` bits of an `n`-bit vector moves the words exactly as
/// a shift by `rhs` bits does, in either direction.
pub proof fn lemma_shift_amount_wraps(ws: Seq<u64>, rhs: nat, n: nat)
    requires
        n > 0,
    ensures
        shl_words(ws, (rhs + n) % n) == shl_words(ws, rhs % n),
        shr_words(ws, (rhs + n) % n) == shr_words(ws, rhs % n),
{
    lemma_mod_add_multiples_vanish(rhs as int, n as int);
}

/// A bit vector of nominal width `N`, held as 64-bit words; word 0 holds the
/// least significant bits.
pub struct BitVector<const N: usize>(pub Vec<u64>);

impl<const N: usize> BitVector<N> {
    /// An empty vector (no words yet).
    pub fn new() -> (r: Self)
        ensures
            r.0@ == Seq::<u64>::empty(),
    {
        BitVector(Vec::new())
    }

    /// Appends the words of `key` above the words already held.
    pub fn add(&mut self, key: &[u64])
        ensures
            final(self).0@ == old(self).0@ + key@,
    {
        let mut j: usize = 0;
        while j < key.len()
            invariant
                j <= key.len(),
                self.0@ == old(self).0@ + key@.take(j as int),
            decreases key.len() - j,
        {
            self.0.push(key[j]);
            j += 1;
            proof {
                assert(key@.take(j as int) == key@.take(j - 1).push(key@[j - 1]));
            }
        }
        proof {
            assert(key@.take(key.len() as int) == key@);
        }
    }

    /// Shifts the whole vector left by `rhs % N` bits.
    pub fn shl(self, rhs: usize) -> (r: Self)
        requires
            N > 0,
            rhs % N < 64 || self.0.len() == 0,
        ensures
            r.0@ == shl_words(self.0@, (rhs % N) as nat),
            words_value(r.0@) == (words_value(self.0@) * pow2((rhs % N) as nat)) % pow2(64 * self.0@.len()),
    {
        let mut v = self;
        let ghost orig = v.0@;
        let ghost k: nat = (rhs % N) as nat;
        let mut leftover_bits: usize = rhs % N;
        while leftover_bits > 0
            invariant
                orig == self.0@,
                k == (rhs % N) as nat,
                orig.len() > 0 ==> k < 64,
                v.0@.len() == orig.len(),
                leftover_bits == k || leftover_bits == 0 || orig.len() == 0,
                leftover_bits == k ==> v.0@ == orig,
                leftover_bits != k ==> v.0@ == shl_words(orig, k),
            decreases leftover_bits,
        {
            let mut prev_leftover: u64 = 0;
            let shl_bitcount: usize = if leftover_bits < 64 { leftover_bits } else { 64 };
            let mut i: usize = 0;
            while i < v.0.len()
                invariant
                    orig.len() > 0 ==> k < 64,
                    leftover_bits == k || orig.len() == 0,
                    shl_bitcount == if leftover_bits < 64 { leftover_bits } else { 64 },
                    0 < shl_bitcount <= 64,
                    v.0@.len() == orig.len(),
                    i <= orig.len(),
                    prev_leftover == if i == 0 { 0u64 } else { orig[i - 1] },
                    forall|j: int| 0 <= j < i ==> v.0@[j] == shl_word(orig[j], if j == 0 { 0u64 } else { orig[j - 1] }, k),
                    forall|j: int| i <= j < orig.len() ==> v.0@[j] == orig[j],
                decreases orig.len() - i,
            {
                let tmp = v.0[i];
                prev_leftover = prev_leftover >> ((64 - shl_bitcount) as u64);
                v.0.set(i, (tmp << (shl_bitcount as u64)) | prev_leftover);
                prev_leftover = tmp;
                i += 1;
            }
            proof {
                if orig.len() > 0 {
                    assert(v.0@ =~= shl_words(orig, k));
                } else {
                    assert(v.0@ =~= shl_words(orig, k));
                    assert(v.0@ =~= orig);
                }
            }
            leftover_bits -= shl_bitcount;
        }
        proof {
            if orig.len() > 0 {
                lemma_shl_value(orig, k);
            } else {
                lemma2_to64();
                assert(words_value(orig) == 0);
                assert(words_value(v.0@) == 0);
            }
        }
        v
    }

    /// Shifts the whole vector right by `rhs % N` bits.
    pub fn shr(self, rhs: usize) -> (r: Self)
        requires
            N > 0,
            rhs % N < 64 || self.0.len() == 0,
        ensures
            r.0@ == shr_words(self.0@, (rhs % N) as nat),
            words_value(r.0@) == words_value(self.0@) / pow2((rhs % N) as nat),
    {
        let mut v = self;
        let ghost orig = v.0@;
        let ghost k: nat = (rhs % N) as nat;
        let mut leftover_bits: usize = rhs % N;
        while leftover_bits > 0
            invariant
                orig == self.0@,
                k == (rhs % N) as nat,
                orig.len() > 0 ==> k < 64,
                v.0@.len() == orig.len(),
                leftover_bits == k || leftover_bits == 0 || orig.len() == 0,
                leftover_bits == k ==> v.0@ == orig,
                leftover_bits != k ==> v.0@ == shr_words(orig, k),
            decreases leftover_bits,
        {
            let mut prev_leftover: u64 = 0;
            let shr_bitcount: usize = if leftover_bits < 64 { leftover_bits } else { 64 };
            let mut i: usize = v.0.len();
            while i > 0
                invariant
                    orig.len() > 0 ==> k < 64,
                    leftover_bits == k || orig.len() == 0,
                    shr_bitcount == if leftover_bits < 64 { leftover_bits } else { 64 },
                    0 < shr_bitcount <= 64,
                    v.0@.len() == orig.len(),
                    i <= orig.len(),
                    prev_leftover == if i == orig.len() { 0u64 } else { orig[i as int] },
                    forall|j: int| i <= j < orig.len() ==> v.0@[j] == shr_word(orig[j], if j + 1 < orig.len() { orig[j + 1] } else { 0u64 }, k),
                    forall|j: int| 0 <= j < i ==> v.0@[j] == orig[j],
                decreases i,
            {
                i -= 1;
                let tmp = v.0[i];
                prev_leftover = prev_leftover << ((64 - shr_bitcount) as u64);
                v.0.set(i, (tmp >> (shr_bitcount as u64)) | prev_leftover);
                prev_leftover = tmp;
            }
            proof {
                assert(v.0@ =~= shr_words(orig, k));
                if orig.len() == 0 {
                    assert(v.0@ =~= orig);
                }
            }
            leftover_bits -= shr_bitcount;
        }
        proof {
            if orig.len() > 0 && k > 0 {
                lemma_shr_value(orig, k);
            } else if k == 0 {
                lemma2_to64();
            } else {
                lemma_pow2_pos(k);
                lemma_div_of0(pow2(k) as int);
            }
        }
        v
    }
}

} // verus!
