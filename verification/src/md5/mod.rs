//! MD5 building blocks: message padding, the split of a padded message into
//! 32-bit words, and the per-step helper functions.
//!
//! The compression round and the full hash are not implemented:
//! `MD5::run` does nothing.
use vstd::arithmetic::div_mod::*;
use vstd::arithmetic::power2::*;
use vstd::bits::*;
use vstd::prelude::*;

verus! {

/// The per-step additive constants.
pub const K: [u32; 64] = [
    0xd76aa478, 0xe8c7b756, 0x242070db, 0xc1bdceee,
    0xf57c0faf, 0x4787c62a, 0xa8304613, 0xfd469501,
    0x698098d8, 0x8b44f7af, 0xffff5bb1, 0x895cd7be,
    0x6b901122, 0xfd987193, 0xa679438e, 0x49b40821,
    0xf61e2562, 0xc040b340, 0x265e5a51, 0xe9b6c7aa,
    0xd62f105d, 0x02441453, 0xd8a1e681, 0xe7d3fbc8,
    0x21e1cde6, 0xc33707d6, 0xf4d50d87, 0x455a14ed,
    0xa9e3e905, 0xfcefa3f8, 0x676f02d9, 0x8d2a4c8a,
    0xfffa3942, 0x8771f681, 0x6d9d6122, 0xfde5380c,
    0xa4beea44, 0x4bdecfa9, 0xf6bb4b60, 0xbebfbc70,
    0x289b7ec6, 0xeaa127fa, 0xd4ef3085, 0x04881d05,
    0xd9d4d039, 0xe6db99e5, 0x1fa27cf8, 0xc4ac5665,
    0xf4292244, 0x432aff97, 0xab9423a7, 0xfc93a039,
    0x655b59c3, 0x8f0ccc92, 0xffeff47d, 0x85845dd1,
    0x6fa87e4f, 0xfe2ce6e0, 0xa3014314, 0x4e0811a1,
    0xf7537e82, 0xbd3af235, 0x2ad7d2bb, 0xeb86d391,
];

/// The initial chaining value.
pub const IV: [u32; 4] = [0x67452301, 0xefcdab89, 0x98badcfe, 0x10325476];

/// The per-step rotation amounts.
pub const S: [u32; 64] = [
    7, 12, 17, 22, 7, 12, 17, 22, 7, 12, 17, 22, 7, 12, 17, 22, 5, 9, 14, 20, 5, 9, 14, 20, 5, 9,
    14, 20, 5, 9, 14, 20, 4, 11, 16, 23, 4, 11, 16, 23, 4, 11, 16, 23, 4, 11, 16, 23, 6, 10, 15,
    21, 6, 10, 15, 21, 6, 10, 15, 21, 6, 10, 15, 21,
];

/// The number of zero bytes that follow the `0x80` marker when a message of
/// `len` bytes is padded: enough that the marker, the zeros and the 8-byte
/// length end on a 64-byte boundary. (Not defined for `len % 64 == 56`.)
pub open spec fn md5_zero_count(len: nat) -> nat {
    let tail = len % 64;
    if tail > 56 {
        (64 - tail + 56 - 1) as nat
    } else {
        (56 - tail - 1) as nat
    }
}

/// The `n` low bytes of `v`, least significant first.
pub open spec fn le_bytes(v: nat, n: nat) -> Seq<u8> {
    Seq::new(n, |i: int| ((v / pow2((8 * i) as nat)) % 256) as u8)
}

/// A message followed by the `0x80` marker, zero bytes, and the message
/// length in bits as 8 little-endian bytes.
pub open spec fn md5_padded(m: Seq<u8>) -> Seq<u8> {
    m + seq![0x80u8] + Seq::new(md5_zero_count(m.len()), |i: int| 0u8) + le_bytes(m.len() * 8, 8)
}

/// The big-endian 32-bit word made of bytes `4i .. 4i + 4` of `bytes`.
pub open spec fn be_word(bytes: Seq<u8>, i: int) -> u32 {
    (bytes[4 * i] * 0x100_0000 + bytes[4 * i + 1] * 0x1_0000 + bytes[4 * i + 2] * 0x100
        + bytes[4 * i + 3]) as u32
}

/// A padded message keeps the message as its prefix, follows it by the
/// `0x80` marker, ends in the message's bit length, and fills the fewest
/// whole 64-byte blocks that hold the message and 9 more bytes.
pub proof fn lemma_md5_padded(m: Seq<u8>)
    requires
        m.len() % 64 != 56,
    ensures
        md5_padded(m).len() % 64 == 0,
        md5_padded(m).len() >= m.len() + 9,
        md5_padded(m).len() < m.len() + 9 + 64,
        md5_padded(m).subrange(0, m.len() as int) == m,
        md5_padded(m)[m.len() as int] == 0x80u8,
        md5_padded(m).subrange(md5_padded(m).len() - 8, md5_padded(m).len() as int) == le_bytes(m.len() * 8, 8),
        forall|i: int| m.len() < i < md5_padded(m).len() - 8 ==> #[trigger] md5_padded(m)[i] == 0u8,
{
    let p = md5_padded(m);
    let z = md5_zero_count(m.len());
    let len = m.len();
    assert(p.len() == len + 1 + z + 8);
    lemma_fundamental_div_mod(len as int, 64);
    assert((len + 1 + z + 8) % 64 == 0) by {
        let q = len / 64;
        let t = len % 64;
        if t > 56 {
            assert(len + 1 + z + 8 == 64 * (q + 2));
        } else {
            assert(len + 1 + z + 8 == 64 * (q + 1));
        }
        lemma_mod_multiples_basic(((len + 1 + z + 8) / 64) as int, 64);
    }
    assert(p.subrange(0, len as int) =~= m);
    assert(p.subrange(p.len() - 8, p.len() as int) =~= le_bytes(len * 8, 8));
}

/// Appends `count` zero bytes.
fn push_zeros(bytes: &mut Vec<u8>, count: usize)
    ensures
        final(bytes)@ == old(bytes)@ + Seq::new(count as nat, |i: int| 0u8),
{
    let mut j: usize = 0;
    while j < count
        invariant
            j <= count,
            bytes@ == old(bytes)@ + Seq::new(j as nat, |i: int| 0u8),
        decreases count - j,
    {
        bytes.push(0u8);
        j += 1;
        proof {
            assert(Seq::new(j as nat, |i: int| 0u8) =~= Seq::new((j - 1) as nat, |i: int| 0u8).push(0u8));
        }
    }
}

/// Appends the 8 bytes of `v`, least significant first.
fn push_le_bytes(bytes: &mut Vec<u8>, v: u64)
    ensures
        final(bytes)@ == old(bytes)@ + le_bytes(v as nat, 8),
{
    let mut b: u64 = 0;
    while b < 8
        invariant
            b <= 8,
            bytes@ == old(bytes)@ + le_bytes(v as nat, b as nat),
        decreases 8 - b,
    {
        let byte = ((v >> (8 * b)) & 0xff) as u8;
        proof {
            lemma_u64_shr_is_div(v, (8 * b) as u64);
            lemma_u64_low_bits_mask_is_mod(v >> (8 * b), 8nat);
            lemma2_to64();
            assert(low_bits_mask(8) == 0xff);
            assert(byte == le_bytes(v as nat, (b + 1) as nat)[b as int]);
        }
        bytes.push(byte);
        b += 1;
        proof {
            assert(le_bytes(v as nat, b as nat) =~= le_bytes(v as nat, (b - 1) as nat).push(byte));
        }
    }
}

/// The number that bytes stand for, least significant byte first.
pub open spec fn le_number(bs: Seq<u8>) -> nat
    decreases bs.len(),
{
    if bs.len() == 0 {
        0
    } else {
        le_number(bs.drop_last()) + (bs.last() as nat) * pow2((8 * (bs.len() - 1)) as nat)
    }
}

/// The `n` low bytes of `v` stand for `v` reduced modulo `2^(8n)`.
pub proof fn lemma_le_bytes_reads_back(v: nat, n: nat)
    ensures
        le_number(le_bytes(v, n)) == v % pow2(8 * n),
    decreases n,
{
    lemma_pow2_pos(8 * n);
    if n == 0 {
        lemma2_to64();
        assert(le_bytes(v, 0).len() == 0);
    } else {
        let m = (n - 1) as nat;
        lemma_le_bytes_reads_back(v, m);
        let bs = le_bytes(v, n);
        assert(bs.drop_last() =~= le_bytes(v, m));
        let y = pow2(8 * m);
        lemma_pow2_pos(8 * m);
        lemma_pow2_adds(8 * m, 8);
        lemma2_to64();
        assert(8 * m + 8 == 8 * n);
        assert(pow2(8 * n) == y * 256);
        lemma_breakdown(v as int, y as int, 256);
        assert(bs.last() == ((v / y) % 256) as u8);
        lemma_mod_bound((v / y) as int, 256);
        assert(le_number(bs) == v % y + ((v / y) % 256) * y);
        assert(((v / y) % 256) * y == y * ((v / y) % 256)) by (nonlinear_arith);
    }
}

/// The last 8 bytes of a padded message, read least significant first, are
/// the message length in bits.
pub proof fn lemma_md5_length_field(m: Seq<u8>)
    requires
        m.len() * 8 < pow2(64),
    ensures
        le_number(md5_padded(m).subrange(md5_padded(m).len() - 8, md5_padded(m).len() as int)) == m.len() * 8,
{
    let p = md5_padded(m);
    assert(p.subrange(p.len() - 8, p.len() as int) =~= le_bytes(m.len() * 8, 8));
    lemma_le_bytes_reads_back(m.len() * 8, 8);
    lemma_small_mod(m.len() * 8, pow2(64));
}

/// A message padded for MD5.
pub struct Msg {
    padded_bytes: Vec<u8>,
    padding_length: u64,
}

impl Msg {
    /// The padded bytes.
    pub closed spec fn bytes(&self) -> Seq<u8> {
        self.padded_bytes@
    }

    /// The number of zero bytes inserted between the marker and the length.
    pub closed spec fn zeros(&self) -> u64 {
        self.padding_length
    }

    /// The padded bytes split into whole 32-bit words.
    pub open spec fn wf(&self) -> bool {
        self.bytes().len() % 4 == 0
    }

    /// Pads `bytes`: appends `0x80`, zero bytes up to 56 modulo 64, and the
    /// bit length of `bytes` as 8 little-endian bytes.
    pub fn new(bytes: Vec<u8>) -> (r: Self)
        requires
            bytes@.len() % 64 != 56,
            bytes@.len() * 8 <= usize::MAX,
        ensures
            r.bytes() == md5_padded(bytes@),
            r.zeros() == md5_zero_count(bytes@.len()),
            r.wf(),
            le_number(r.bytes().subrange(r.bytes().len() - 8, r.bytes().len() as int)) == bytes@.len() * 8,
    {
        let mut bytes = bytes;
        let ghost m = bytes@;
        let message_length = bytes.len();
        let tail_length = message_length % 64;
        let mut padding_length: usize = if tail_length > 56 {
            64 - tail_length + 56
        } else {
            56 - tail_length
        };
        bytes.push(0x80u8);
        padding_length -= 1;
        push_zeros(&mut bytes, padding_length);
        let bit_length: u64 = (message_length * 8) as u64;
        push_le_bytes(&mut bytes, bit_length);
        proof {
            assert(bytes@ =~= md5_padded(m));
            lemma_md5_padded(m);
            lemma2_to64_rest();
            lemma_md5_length_field(m);
        }
        Self { padded_bytes: bytes, padding_length: padding_length as u64 }
    }

    /// A copy of the padded bytes.
    pub fn padded_msg(&self) -> (r: Vec<u8>)
        ensures
            r@ == self.bytes(),
    {
        let r = self.padded_bytes.clone();
        proof {
            assert(r@ =~= self.padded_bytes@);
        }
        r
    }

    /// The padded bytes read as big-endian 32-bit words, in order.
    pub fn iter(&self) -> (r: Vec<u32>)
        requires
            self.wf(),
        ensures
            r@.len() == self.bytes().len() / 4,
            forall|i: int| 0 <= i < r@.len() ==> #[trigger] r@[i] == be_word(self.bytes(), i),
    {
        let n = self.padded_bytes.len() / 4;
        let mut words: Vec<u32> = Vec::new();
        let mut i: usize = 0;
        while i < n
            invariant
                n == self.bytes().len() / 4,
                self.bytes().len() % 4 == 0,
                i <= n,
                words@.len() == i,
                forall|j: int| 0 <= j < i ==> #[trigger] words@[j] == be_word(self.bytes(), j),
            decreases n - i,
        {
            proof {
                let len = self.padded_bytes.len();
                assert(4 * i + 3 < len) by (nonlinear_arith)
                    requires
                        i < n,
                        n == len / 4,
                        len % 4 == 0,
                ;
            }
            let k = 4 * i;
            let b0 = self.padded_bytes[k];
            let b1 = self.padded_bytes[k + 1];
            let b2 = self.padded_bytes[k + 2];
            let b3 = self.padded_bytes[k + 3];
            let w: u32 = ((b0 as u32) << 24u32) | ((b1 as u32) << 16u32) | ((b2 as u32) << 8u32) | (b3 as u32);
            proof {
                assert(w == b0 * 0x100_0000 + b1 * 0x1_0000 + b2 * 0x100 + b3) by (bit_vector)
                    requires
                        w == ((b0 as u32) << 24u32) | ((b1 as u32) << 16u32) | ((b2 as u32) << 8u32) | (b3 as u32),
                ;
            }
            words.push(w);
            i += 1;
        }
        words
    }
}

/// `a + state` modulo `congruent`.
pub fn first_addition_mod(a: u32, state: u32, congruent: u32) -> (r: u32)
    requires
        a + state <= u32::MAX,
        congruent >= 1,
    ensures
        r == (a + state) % (congruent as int),
{
    (a + state) % congruent
}

/// `m + state` masked with `congruent - 1`.
pub fn msg_addition_mod(m: u32, state: u32, congruent: u32) -> (r: u32)
    requires
        m + state <= u32::MAX,
        congruent >= 1,
    ensures
        r == ((m + state) as u32) & ((congruent - 1) as u32),
{
    (m + state) & (congruent - 1)
}

/// `k + state` masked with `congruent - 1`.
pub fn key_addition_mod(k: u32, state: u32, congruent: u32) -> (r: u32)
    requires
        k + state <= u32::MAX,
        congruent >= 1,
    ensures
        r == ((k + state) as u32) & ((congruent - 1) as u32),
{
    (k + state) & (congruent - 1)
}

/// `b + state` masked with `congruent - 1`.
pub fn last_addition_mod(b: u32, state: u32, congruent: u32) -> (r: u32)
    requires
        b + state <= u32::MAX,
        congruent >= 1,
    ensures
        r == ((b + state) as u32) & ((congruent - 1) as u32),
{
    (b + state) & (congruent - 1)
}

/// `state` shifted left by `rot` bits (the bits shifted out are lost).
pub fn left_rotation(state: u32, rot: u8) -> (r: u32)
    requires
        rot < 32,
    ensures
        r == state << (rot as u32),
{
    state << (rot as u32)
}

/// The new register order at the end of a step: `(d, state, b, c)`.
pub fn round_end_mix(state: u32, b: u32, c: u32, d: u32) -> (r: (u32, u32, u32, u32))
    ensures
        r == (d, state, b, c),
{
    (d, state, b, c)
}

/// The first-round mixing function `(b & c) | (!b ^ d)`.
pub fn first_f(b: u32, c: u32, d: u32) -> (r: u32)
    ensures
        r == (b & c) | (!b ^ d),
{
    (b & c) | (!b ^ d)
}

/// The second-round mixing function `(b & d) | (c ^ !d)`.
pub fn second_f(b: u32, c: u32, d: u32) -> (r: u32)
    ensures
        r == (b & d) | (c ^ !d),
{
    (b & d) | (c ^ !d)
}

/// The third-round mixing function `b ^ c ^ d`.
pub fn third_f(b: u32, c: u32, d: u32) -> (r: u32)
    ensures
        r == b ^ c ^ d,
{
    b ^ c ^ d
}

/// The fourth-round mixing function `c ^ (b & !d)`.
pub fn foruth_f(b: u32, c: u32, d: u32) -> (r: u32)
    ensures
        r == c ^ (b & !d),
{
    c ^ (b & !d)
}

/// The MD5 chaining state.
pub struct MD5 {
    state: [u32; 4],
    iv: [u32; 4],
}

impl MD5 {
    /// Runs the hash; it does nothing yet.
    pub fn run() {
    }
}

} // verus!
