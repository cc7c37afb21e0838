//! The standard DES parts (FIPS 46-3): bit permutations by table, the
//! S-boxes and the key schedule, wired into a `DESBuilder`.
//!
//! Bits are numbered as in the standard: bit 1 is the most significant bit
//! of a block of the stated width.
use crate::blockcipher::feistel::{FeistelFBuilder, KeyScheduleBuilder};
use crate::blockcipher::feistel::{round_entry, schedule_run, FeistelRoundState};
use crate::des::{des_link, des_output, DESBuilder, DESTraceEntry, LRKey, DES};
use vstd::prelude::*;

verus! {

/// Initial permutation.
pub const IP_TABLE: [u8; 64] = [
    58, 50, 42, 34, 26, 18, 10, 2, 60, 52, 44, 36, 28, 20, 12, 4,
    62, 54, 46, 38, 30, 22, 14, 6, 64, 56, 48, 40, 32, 24, 16, 8,
    57, 49, 41, 33, 25, 17, 9, 1, 59, 51, 43, 35, 27, 19, 11, 3,
    61, 53, 45, 37, 29, 21, 13, 5, 63, 55, 47, 39, 31, 23, 15, 7,
];

/// Final permutation, the inverse of the initial one.
pub const FP_TABLE: [u8; 64] = [
    40, 8, 48, 16, 56, 24, 64, 32, 39, 7, 47, 15, 55, 23, 63, 31,
    38, 6, 46, 14, 54, 22, 62, 30, 37, 5, 45, 13, 53, 21, 61, 29,
    36, 4, 44, 12, 52, 20, 60, 28, 35, 3, 43, 11, 51, 19, 59, 27,
    34, 2, 42, 10, 50, 18, 58, 26, 33, 1, 41, 9, 49, 17, 57, 25,
];

/// Expansion of a 32-bit half block to 48 bits.
pub const E_TABLE: [u8; 48] = [
    32, 1, 2, 3, 4, 5, 4, 5, 6, 7, 8, 9, 8, 9, 10, 11,
    12, 13, 12, 13, 14, 15, 16, 17, 16, 17, 18, 19, 20, 21, 20, 21,
    22, 23, 24, 25, 24, 25, 26, 27, 28, 29, 28, 29, 30, 31, 32, 1,
];

/// Permutation of the S-box output.
pub const P_TABLE: [u8; 32] = [
    16, 7, 20, 21, 29, 12, 28, 17, 1, 15, 23, 26, 5, 18, 31, 10,
    2, 8, 24, 14, 32, 27, 3, 9, 19, 13, 30, 6, 22, 11, 4, 25,
];

/// Permuted choice 1: the 56 key bits that enter the schedule.
pub const PC1_TABLE: [u8; 56] = [
    57, 49, 41, 33, 25, 17, 9, 1, 58, 50, 42, 34, 26, 18,
    10, 2, 59, 51, 43, 35, 27, 19, 11, 3, 60, 52, 44, 36,
    63, 55, 47, 39, 31, 23, 15, 7, 62, 54, 46, 38, 30, 22,
    14, 6, 61, 53, 45, 37, 29, 21, 13, 5, 28, 20, 12, 4,
];

/// Permuted choice 2: the 48 schedule bits that form a round key.
pub const PC2_TABLE: [u8; 48] = [
    14, 17, 11, 24, 1, 5, 3, 28, 15, 6, 21, 10,
    23, 19, 12, 4, 26, 8, 16, 7, 27, 20, 13, 2,
    41, 52, 31, 37, 47, 55, 30, 40, 51, 45, 33, 48,
    44, 49, 39, 56, 34, 53, 46, 42, 50, 36, 29, 32,
];

/// Left rotation applied to each key-schedule half, by round.
pub const SHIFTS: [u8; 16] = [1, 1, 2, 2, 2, 2, 2, 2, 1, 2, 2, 2, 2, 2, 2, 1];

/// The eight S-boxes, 64 entries each, row-major (4 rows of 16).
pub const S_BOXES: [u8; 512] = [
    14, 4, 13, 1, 2, 15, 11, 8, 3, 10, 6, 12, 5, 9, 0, 7,
    0, 15, 7, 4, 14, 2, 13, 1, 10, 6, 12, 11, 9, 5, 3, 8,
    4, 1, 14, 8, 13, 6, 2, 11, 15, 12, 9, 7, 3, 10, 5, 0,
    15, 12, 8, 2, 4, 9, 1, 7, 5, 11, 3, 14, 10, 0, 6, 13,

    15, 1, 8, 14, 6, 11, 3, 4, 9, 7, 2, 13, 12, 0, 5, 10,
    3, 13, 4, 7, 15, 2, 8, 14, 12, 0, 1, 10, 6, 9, 11, 5,
    0, 14, 7, 11, 10, 4, 13, 1, 5, 8, 12, 6, 9, 3, 2, 15,
    13, 8, 10, 1, 3, 15, 4, 2, 11, 6, 7, 12, 0, 5, 14, 9,

    10, 0, 9, 14, 6, 3, 15, 5, 1, 13, 12, 7, 11, 4, 2, 8,
    13, 7, 0, 9, 3, 4, 6, 10, 2, 8, 5, 14, 12, 11, 15, 1,
    13, 6, 4, 9, 8, 15, 3, 0, 11, 1, 2, 12, 5, 10, 14, 7,
    1, 10, 13, 0, 6, 9, 8, 7, 4, 15, 14, 3, 11, 5, 2, 12,

    7, 13, 14, 3, 0, 6, 9, 10, 1, 2, 8, 5, 11, 12, 4, 15,
    13, 8, 11, 5, 6, 15, 0, 3, 4, 7, 2, 12, 1, 10, 14, 9,
    10, 6, 9, 0, 12, 11, 7, 13, 15, 1, 3, 14, 5, 2, 8, 4,
    3, 15, 0, 6, 10, 1, 13, 8, 9, 4, 5, 11, 12, 7, 2, 14,

    2, 12, 4, 1, 7, 10, 11, 6, 8, 5, 3, 15, 13, 0, 14, 9,
    14, 11, 2, 12, 4, 7, 13, 1, 5, 0, 15, 10, 3, 9, 8, 6,
    4, 2, 1, 11, 10, 13, 7, 8, 15, 9, 12, 5, 6, 3, 0, 14,
    11, 8, 12, 7, 1, 14, 2, 13, 6, 15, 0, 9, 10, 4, 5, 3,

    12, 1, 10, 15, 9, 2, 6, 8, 0, 13, 3, 4, 14, 7, 5, 11,
    10, 15, 4, 2, 7, 12, 9, 5, 6, 1, 13, 14, 0, 11, 3, 8,
    9, 14, 15, 5, 2, 8, 12, 3, 7, 0, 4, 10, 1, 13, 11, 6,
    4, 3, 2, 12, 9, 5, 15, 10, 11, 14, 1, 7, 6, 0, 8, 13,

    4, 11, 2, 14, 15, 0, 8, 13, 3, 12, 9, 7, 5, 10, 6, 1,
    13, 0, 11, 7, 4, 9, 1, 10, 14, 3, 5, 12, 2, 15, 8, 6,
    1, 4, 11, 13, 12, 3, 7, 14, 10, 15, 6, 8, 0, 5, 9, 2,
    6, 11, 13, 8, 1, 4, 10, 7, 9, 5, 0, 15, 14, 2, 3, 12,

    13, 2, 8, 4, 6, 15, 11, 1, 10, 9, 3, 14, 5, 0, 12, 7,
    1, 15, 13, 8, 10, 3, 7, 4, 12, 5, 6, 11, 0, 14, 9, 2,
    7, 11, 4, 1, 9, 12, 14, 2, 0, 6, 10, 13, 15, 3, 5, 8,
    2, 1, 14, 7, 4, 10, 8, 13, 15, 12, 9, 0, 3, 5, 6, 11,
];

/// Bit `pos` (1 = most significant) of the `width`-bit block `x`; 0 for a
/// position outside the block.
pub open spec fn bit_at(x: u64, width: nat, pos: nat) -> u64 {
    if 1 <= pos <= width && width <= 64 {
        (x >> ((width - pos) as u64)) & 1
    } else {
        0
    }
}

/// The block whose bits, most significant first, are the bits of the
/// `width`-bit block `x` at the positions listed in `table`.
pub open spec fn permuted(x: u64, table: Seq<u8>, width: nat) -> u64
    decreases table.len(),
{
    if table.len() == 0 {
        0
    } else {
        (permuted(x, table.drop_last(), width) << 1u64) | bit_at(x, width, table.last() as nat)
    }
}

/// Bit `i` (0 = most significant) of the `n`-bit block `v`.
pub open spec fn msb_bit(v: u64, n: nat, i: int) -> u64 {
    (v >> ((n - 1 - i) as u64)) & 1
}

/// A permuted block has as many bits as the table has entries, and its bit
/// `i` (counted from the most significant) is the input bit that entry `i`
/// of the table names.
pub proof fn lemma_permuted_bits(x: u64, table: Seq<u8>, width: nat)
    requires
        table.len() <= 64,
    ensures
        table.len() < 64 ==> permuted(x, table, width) < (1u64 << (table.len() as u64)),
        forall|i: int|
            0 <= i < table.len() ==> #[trigger] msb_bit(permuted(x, table, width), table.len(), i)
                == bit_at(x, width, table[i] as nat),
    decreases table.len(),
{
    let n = table.len();
    if n > 0 {
        let t = table.drop_last();
        lemma_permuted_bits(x, t, width);
        let p = permuted(x, t, width);
        let b = bit_at(x, width, table.last() as nat);
        let q = permuted(x, table, width);
        let m: u64 = (n - 1) as u64;
        assert(b <= 1) by {
            let w = width;
            if 1 <= table.last() as nat <= w && w <= 64 {
                let y = x >> ((w - table.last() as nat) as u64);
                assert(y & 1 <= 1) by (bit_vector);
            }
        }
        assert(p < (1u64 << m));
        assert(q == (p << 1u64) | b);
        if n < 64 {
            assert(q < (1u64 << (m + 1))) by (bit_vector)
                requires
                    m < 63,
                    p < (1u64 << m),
                    b <= 1,
                    q == (p << 1u64) | b,
            ;
        }
        assert(q & 1 == b) by (bit_vector)
            requires
                b <= 1,
                q == (p << 1u64) | b,
        ;
        assert forall|i: int| 0 <= i < n implies #[trigger] msb_bit(q, n, i)
            == bit_at(x, width, table[i] as nat) by {
            if i < n - 1 {
                let k: u64 = (n - 2 - i) as u64;
                assert(t[i] == table[i]);
                assert(msb_bit(p, (n - 1) as nat, i) == bit_at(x, width, t[i] as nat));
                assert((q >> (k + 1)) & 1 == (p >> k) & 1) by (bit_vector)
                    requires
                        k < 63,
                        b <= 1,
                        q == (p << 1u64) | b,
                ;
                assert((n - 1 - i) as u64 == k + 1);
            } else {
                assert((n - 1 - i) as u64 == 0);
                assert(q >> 0u64 == q) by (bit_vector);
            }
        }
    } else {
        assert(0u64 < (1u64 << 0u64)) by (bit_vector);
    }
}

/// The first `k` entries of `outer` each name the position at which `inner`
/// holds the entry's index plus one.
pub open spec fn undoes_upto(outer: Seq<u8>, inner: Seq<u8>, k: nat) -> bool
    decreases k,
{
    if k == 0 {
        true
    } else {
        &&& undoes_upto(outer, inner, (k - 1) as nat)
        &&& 1 <= outer[k - 1] <= 64
        &&& inner[outer[k - 1] - 1] == k
    }
}

/// `undoes_upto` holds entry by entry.
proof fn lemma_undoes_upto(outer: Seq<u8>, inner: Seq<u8>, k: nat)
    requires
        undoes_upto(outer, inner, k),
    ensures
        forall|i: int| 0 <= i < k ==> 1 <= #[trigger] outer[i] <= 64 && inner[outer[i] - 1] == i + 1,
    decreases k,
{
    if k > 0 {
        lemma_undoes_upto(outer, inner, (k - 1) as nat);
    }
}

/// The final and initial permutation tables undo each other: entry `i` of
/// either names the position at which the other holds `i + 1`.
proof fn lemma_tables_inverse()
    ensures
        forall|i: int| 0 <= i < 64 ==> 1 <= #[trigger] FP_TABLE@[i] <= 64 && IP_TABLE@[FP_TABLE@[i] - 1] == i + 1,
        forall|i: int| 0 <= i < 64 ==> 1 <= #[trigger] IP_TABLE@[i] <= 64 && FP_TABLE@[IP_TABLE@[i] - 1] == i + 1,
{
    assert(undoes_upto(FP_TABLE@, IP_TABLE@, 64)) by {
        reveal_with_fuel(undoes_upto, 65);
    }
    assert(undoes_upto(IP_TABLE@, FP_TABLE@, 64)) by {
        reveal_with_fuel(undoes_upto, 65);
    }
    lemma_undoes_upto(FP_TABLE@, IP_TABLE@, 64);
    lemma_undoes_upto(IP_TABLE@, FP_TABLE@, 64);
}

/// Two 64-bit blocks whose bits agree from position `j` (counted from the
/// least significant) upward agree when both are shifted down `j` bits.
proof fn lemma_high_parts_equal(a: u64, b: u64, j: u64)
    requires
        j < 64,
        forall|i: int| 0 <= i < 64 ==> #[trigger] msb_bit(a, 64, i) == msb_bit(b, 64, i),
    ensures
        a >> j == b >> j,
    decreases 64 - j,
{
    assert(msb_bit(a, 64, 63 - j) == msb_bit(b, 64, 63 - j));
    assert((64 - 1 - (63 - j)) as u64 == j);
    if j == 63 {
        assert(a >> 63u64 == (a >> 63u64) & 1) by (bit_vector);
        assert(b >> 63u64 == (b >> 63u64) & 1) by (bit_vector);
    } else {
        lemma_high_parts_equal(a, b, (j + 1) as u64);
        let k: u64 = (j + 1) as u64;
        assert(a >> j == ((a >> k) << 1u64) | ((a >> j) & 1)) by (bit_vector)
            requires
                j < 63,
                k == j + 1,
        ;
        assert(b >> j == ((b >> k) << 1u64) | ((b >> j) & 1)) by (bit_vector)
            requires
                j < 63,
                k == j + 1,
        ;
    }
}

/// Two 64-bit blocks with the same bits are equal.
proof fn lemma_msb_bits_equal(a: u64, b: u64)
    requires
        forall|i: int| 0 <= i < 64 ==> #[trigger] msb_bit(a, 64, i) == msb_bit(b, 64, i),
    ensures
        a == b,
{
    lemma_high_parts_equal(a, b, 0);
    assert(a >> 0u64 == a) by (bit_vector);
    assert(b >> 0u64 == b) by (bit_vector);
}

/// Permuting by `outer` after `inner`, where `outer`'s entry `i` names the
/// position at which `inner` holds `i + 1`, gives the block back.
proof fn lemma_permutations_undo(x: u64, inner: Seq<u8>, outer: Seq<u8>)
    requires
        inner.len() == 64,
        outer.len() == 64,
        forall|i: int| 0 <= i < 64 ==> 1 <= #[trigger] outer[i] <= 64 && inner[outer[i] - 1] == i + 1,
    ensures
        permuted(permuted(x, inner, 64), outer, 64) == x,
{
    let y = permuted(x, inner, 64);
    let z = permuted(y, outer, 64);
    lemma_permuted_bits(x, inner, 64);
    lemma_permuted_bits(y, outer, 64);
    assert forall|i: int| 0 <= i < 64 implies #[trigger] msb_bit(z, 64, i) == msb_bit(x, 64, i) by {
        let p = outer[i] as int;
        assert(msb_bit(z, 64, i) == bit_at(y, 64, p as nat));
        assert(msb_bit(y, 64, p - 1) == bit_at(x, 64, inner[p - 1] as nat));
        assert(bit_at(y, 64, p as nat) == msb_bit(y, 64, p - 1));
        assert(bit_at(x, 64, (i + 1) as nat) == msb_bit(x, 64, i));
    }
    lemma_msb_bits_equal(z, x);
}

/// The final permutation undoes the initial one, and the initial one undoes
/// the final one.
pub proof fn lemma_final_permutation_inverts_initial(x: u64)
    ensures
        permuted(permuted(x, IP_TABLE@, 64), FP_TABLE@, 64) == x,
        permuted(permuted(x, FP_TABLE@, 64), IP_TABLE@, 64) == x,
{
    lemma_tables_inverse();
    lemma_permutations_undo(x, IP_TABLE@, FP_TABLE@);
    lemma_permutations_undo(x, FP_TABLE@, IP_TABLE@);
}

/// Permutes the `width`-bit block `x` by `table` (see `permuted`).
pub fn permute(x: u64, table: &[u8], width: u64) -> (r: u64)
    requires
        table@.len() <= 64,
    ensures
        r == permuted(x, table@, width as nat),
{
    let mut acc: u64 = 0;
    let mut i: usize = 0;
    while i < table.len()
        invariant
            i <= table@.len(),
            acc == permuted(x, table@.take(i as int), width as nat),
        decreases table@.len() - i,
    {
        let pos = table[i] as u64;
        let bit: u64 = if 1 <= pos && pos <= width && width <= 64 { (x >> (width - pos)) & 1 } else { 0 };
        proof {
            assert(table@.take(i + 1).drop_last() =~= table@.take(i as int));
        }
        acc = (acc << 1u64) | bit;
        i += 1;
    }
    proof {
        assert(table@.take(table@.len() as int) =~= table@);
    }
    acc
}

/// The six input bits of S-box `i` (0-based) in the 48-bit block `x`.
pub open spec fn six_bits(x: u64, i: nat) -> u64 {
    (x >> ((42 - 6 * i) as u64)) & 0x3f
}

/// S-box `i` applied to the six bits `six`: the outer bits pick the row,
/// the inner four the column.
pub open spec fn sbox_value(i: nat, six: u64) -> u64 {
    let row = ((six >> 4u64) & 2) | (six & 1);
    let col = (six >> 1u64) & 0xf;
    (sbox_entry((i * 64 + row * 16 + col) as int) as u64) & 0xf
}

/// Entry `idx` of the S-box table.
#[verifier::opaque]
pub open spec fn sbox_entry(idx: int) -> u8 {
    S_BOXES@[idx]
}

/// Reads entry `idx` of the S-box table.
fn read_sbox(idx: usize) -> (r: u8)
    requires
        idx < 512,
    ensures
        r == sbox_entry(idx as int),
{
    proof {
        reveal(sbox_entry);
    }
    S_BOXES[idx]
}

/// The outputs of the first `k` S-boxes on `x`, concatenated.
pub open spec fn substituted(x: u64, k: nat) -> u64
    decreases k,
{
    if k == 0 {
        0
    } else {
        (substituted(x, (k - 1) as nat) << 4u64) | sbox_value((k - 1) as nat, six_bits(x, (k - 1) as nat))
    }
}

/// The 4-bit output of S-box `i` (0 = first) within a 32-bit block.
pub open spec fn nibble(v: u64, i: int) -> u64 {
    (v >> ((28 - 4 * i) as u64)) & 0xf
}

/// The S-box table entry that box `i` gives for the 48-bit block `x`: its
/// six input bits are bits `6i + 1 ..= 6i + 6` of `x`; the outer two pick
/// the row, the inner four the column.
pub open spec fn sbox_table_output(x: u64, i: int) -> u64 {
    let six = (x >> ((42 - 6 * i) as u64)) & 0x3f;
    let row = ((six >> 4u64) & 2) | (six & 1);
    let col = (six >> 1u64) & 0xf;
    S_BOXES@[i * 64 + row * 16 + col] as u64
}

/// The `k` S-box table entries from `lo` on are 4-bit values.
pub open spec fn sbox_entries_small(lo: int, k: nat) -> bool
    decreases k,
{
    if k == 0 {
        true
    } else {
        sbox_entries_small(lo, (k - 1) as nat) && S_BOXES@[lo + k - 1] < 16
    }
}

proof fn lemma_sbox_entries_small_range(lo: int, k: nat)
    requires
        sbox_entries_small(lo, k),
    ensures
        forall|j: int| lo <= j < lo + k ==> #[trigger] S_BOXES@[j] < 16,
    decreases k,
{
    if k > 0 {
        lemma_sbox_entries_small_range(lo, (k - 1) as nat);
    }
}

proof fn lemma_sbox_box0_small()
    ensures
        forall|j: int| 0 <= j < 64 ==> #[trigger] S_BOXES@[j] < 16,
{
    assert(sbox_entries_small(0, 64)) by {
        reveal_with_fuel(sbox_entries_small, 65);
    }
    lemma_sbox_entries_small_range(0, 64);
}

proof fn lemma_sbox_box1_small()
    ensures
        forall|j: int| 64 <= j < 128 ==> #[trigger] S_BOXES@[j] < 16,
{
    assert(sbox_entries_small(64, 64)) by {
        reveal_with_fuel(sbox_entries_small, 65);
    }
    lemma_sbox_entries_small_range(64, 64);
}

proof fn lemma_sbox_box2_small()
    ensures
        forall|j: int| 128 <= j < 192 ==> #[trigger] S_BOXES@[j] < 16,
{
    assert(sbox_entries_small(128, 64)) by {
        reveal_with_fuel(sbox_entries_small, 65);
    }
    lemma_sbox_entries_small_range(128, 64);
}

proof fn lemma_sbox_box3_small()
    ensures
        forall|j: int| 192 <= j < 256 ==> #[trigger] S_BOXES@[j] < 16,
{
    assert(sbox_entries_small(192, 64)) by {
        reveal_with_fuel(sbox_entries_small, 65);
    }
    lemma_sbox_entries_small_range(192, 64);
}

proof fn lemma_sbox_box4_small()
    ensures
        forall|j: int| 256 <= j < 320 ==> #[trigger] S_BOXES@[j] < 16,
{
    assert(sbox_entries_small(256, 64)) by {
        reveal_with_fuel(sbox_entries_small, 65);
    }
    lemma_sbox_entries_small_range(256, 64);
}

proof fn lemma_sbox_box5_small()
    ensures
        forall|j: int| 320 <= j < 384 ==> #[trigger] S_BOXES@[j] < 16,
{
    assert(sbox_entries_small(320, 64)) by {
        reveal_with_fuel(sbox_entries_small, 65);
    }
    lemma_sbox_entries_small_range(320, 64);
}

proof fn lemma_sbox_box6_small()
    ensures
        forall|j: int| 384 <= j < 448 ==> #[trigger] S_BOXES@[j] < 16,
{
    assert(sbox_entries_small(384, 64)) by {
        reveal_with_fuel(sbox_entries_small, 65);
    }
    lemma_sbox_entries_small_range(384, 64);
}

proof fn lemma_sbox_box7_small()
    ensures
        forall|j: int| 448 <= j < 512 ==> #[trigger] S_BOXES@[j] < 16,
{
    assert(sbox_entries_small(448, 64)) by {
        reveal_with_fuel(sbox_entries_small, 65);
    }
    lemma_sbox_entries_small_range(448, 64);
}

/// Every S-box table entry is a 4-bit value.
proof fn lemma_sbox_entries_small()
    ensures
        forall|j: int| 0 <= j < 512 ==> #[trigger] S_BOXES@[j] < 16,
{
    lemma_sbox_box0_small();
    lemma_sbox_box1_small();
    lemma_sbox_box2_small();
    lemma_sbox_box3_small();
    lemma_sbox_box4_small();
    lemma_sbox_box5_small();
    lemma_sbox_box6_small();
    lemma_sbox_box7_small();
    assert forall|j: int| 0 <= j < 512 implies #[trigger] S_BOXES@[j] < 16 by {
        if j < 64 {
            assert(0 <= j < 64);
        } else if j < 128 {
            assert(64 <= j < 128);
        } else if j < 192 {
            assert(128 <= j < 192);
        } else if j < 256 {
            assert(192 <= j < 256);
        } else if j < 320 {
            assert(256 <= j < 320);
        } else if j < 384 {
            assert(320 <= j < 384);
        } else if j < 448 {
            assert(384 <= j < 448);
        } else if j < 512 {
            assert(448 <= j < 512);
        }
    }
}

/// An S-box output is a 4-bit value.
proof fn lemma_sbox_value_small(i: nat, six: u64)
    ensures
        sbox_value(i, six) <= 15,
{
    let row = ((six >> 4u64) & 2) | (six & 1);
    let col = (six >> 1u64) & 0xf;
    let w = sbox_entry((i * 64 + row * 16 + col) as int) as u64;
    assert(w & 0xf <= 15) by (bit_vector);
}

/// The outputs of the first `k` boxes fill `4k` bits, box `j`'s output at
/// the `j`-th 4-bit group from the top.
proof fn lemma_substituted_groups(x: u64, k: nat)
    requires
        k <= 8,
    ensures
        substituted(x, k) < (1u64 << ((4 * k) as u64)),
        forall|j: int|
            0 <= j < k ==> #[trigger] ((substituted(x, k) >> ((4 * (k - 1 - j)) as u64)) & 0xf)
                == sbox_value(j as nat, six_bits(x, j as nat)),
    decreases k,
{
    if k == 0 {
        assert(0u64 < (1u64 << 0u64)) by (bit_vector);
    } else {
        lemma_substituted_groups(x, (k - 1) as nat);
        let p = substituted(x, (k - 1) as nat);
        let b = sbox_value((k - 1) as nat, six_bits(x, (k - 1) as nat));
        let q = substituted(x, k);
        let m: u64 = (4 * (k - 1)) as u64;
        lemma_sbox_value_small((k - 1) as nat, six_bits(x, (k - 1) as nat));
        assert(q == (p << 4u64) | b);
        assert(q < (1u64 << (m + 4))) by (bit_vector)
            requires
                m <= 28,
                p < (1u64 << m),
                b <= 15,
                q == (p << 4u64) | b,
        ;
        assert forall|j: int| 0 <= j < k implies #[trigger] ((q >> ((4 * (k - 1 - j)) as u64)) & 0xf)
            == sbox_value(j as nat, six_bits(x, j as nat)) by {
            if j < k - 1 {
                let sh: u64 = (4 * (k - 2 - j)) as u64;
                assert(((p >> ((4 * ((k - 1) as nat - 1 - j)) as u64)) & 0xf) == sbox_value(j as nat, six_bits(x, j as nat)));
                assert((q >> (sh + 4)) & 0xf == (p >> sh) & 0xf) by (bit_vector)
                    requires
                        sh <= 24,
                        b <= 15,
                        q == (p << 4u64) | b,
                ;
                assert((4 * (k - 1 - j)) as u64 == sh + 4);
            } else {
                assert((4 * (k - 1 - j)) as u64 == 0);
                assert((q >> 0u64) & 0xf == b) by (bit_vector)
                    requires
                        b <= 15,
                        q == (p << 4u64) | b,
                ;
            }
        }
    }
}

/// Substitution output: 32 bits, made of eight 4-bit groups, group `i`
/// (from the top) being the S-box table entry that box `i` selects by the
/// outer and inner bits of its six input bits.
pub proof fn lemma_substitution_uses_sboxes(x: u64)
    ensures
        substituted(x, 8) < 0x1_0000_0000,
        forall|i: int| 0 <= i < 8 ==> #[trigger] nibble(substituted(x, 8), i) == sbox_table_output(x, i),
{
    lemma_substituted_groups(x, 8);
    lemma_sbox_entries_small();
    assert((1u64 << 32u64) == 0x1_0000_0000) by (bit_vector);
    assert forall|i: int| 0 <= i < 8 implies #[trigger] nibble(substituted(x, 8), i) == sbox_table_output(x, i) by {
        assert(((substituted(x, 8) >> ((4 * (8 - 1 - i)) as u64)) & 0xf) == sbox_value(i as nat, six_bits(x, i as nat)));
        assert((4 * (8 - 1 - i)) as u64 == (28 - 4 * i) as u64);
        let sh: u64 = (42 - 6 * i) as u64;
        let six = six_bits(x, i as nat);
        let row = ((six >> 4u64) & 2) | (six & 1);
        let col = (six >> 1u64) & 0xf;
        assert(six == (x >> sh) & 0x3f);
        assert((x >> sh) & 0x3f <= 0x3f) by (bit_vector);
        assert(row <= 3 && col <= 15) by (bit_vector)
            requires
                six <= 0x3f,
                row == ((six >> 4u64) & 2) | (six & 1),
                col == (six >> 1u64) & 0xf,
        ;
        reveal(sbox_entry);
        let w = S_BOXES@[i * 64 + row * 16 + col] as u64;
        assert(w < 16);
        assert(w & 0xf == w) by (bit_vector)
            requires
                w < 16,
        ;
    }
}

/// Runs the 48-bit block through the eight S-boxes, giving 32 bits.
pub fn substitute(x: u64) -> (r: u32)
    ensures
        r == substituted(x, 8) as u32,
        forall|i: int| 0 <= i < 8 ==> #[trigger] nibble(r as u64, i) == sbox_table_output(x, i),
{
    proof {
        lemma_substitution_uses_sboxes(x);
    }
    let mut acc: u64 = 0;
    let mut i: u64 = 0;
    assert(0u64 < (1u64 << 0u64)) by (bit_vector);
    while i < 8
        invariant
            i <= 8,
            acc == substituted(x, i as nat),
            acc < (1u64 << (4 * i)),
        decreases 8 - i,
    {
        let sh: u64 = 42 - 6 * i;
        let six = (x >> sh) & 0x3f;
        let row = ((six >> 4u64) & 2) | (six & 1);
        let col = (six >> 1u64) & 0xf;
        proof {
            assert(six <= 0x3f) by (bit_vector)
                requires
                    six == (x >> sh) & 0x3f,
            ;
            assert(row <= 3 && col <= 15) by (bit_vector)
                requires
                    six <= 0x3f,
                    row == ((six >> 4u64) & 2) | (six & 1),
                    col == (six >> 1u64) & 0xf,
            ;
        }
        let w = read_sbox((i * 64 + row * 16 + col) as usize) as u64;
        let v = w & 0xf;
        proof {
            let a = acc;
            let k: u64 = (4 * i) as u64;
            assert(v <= 0xf) by (bit_vector)
                requires
                    v == w & 0xf,
            ;
            assert((a << 4u64) | v < (1u64 << (k + 4))) by (bit_vector)
                requires
                    k <= 28,
                    a < (1u64 << k),
                    v <= 0xf,
            ;
        }
        acc = (acc << 4u64) | v;
        i += 1;
    }
    acc as u32
}

/// `v` rotated left by `s` bits within 28 bits.
pub open spec fn rotl28(v: u32, s: u32) -> u32 {
    ((v << s) | (v >> ((28 - s) as u32))) & 0x0fff_ffff
}

/// Rotates the 28-bit value `v` left by `s` bits (`s <= 28`).
pub fn rotate28(v: u32, s: u32) -> (r: u32)
    requires
        s <= 28,
    ensures
        r == rotl28(v, s),
{
    ((v << s) | (v >> (28 - s))) & 0x0fff_ffff
}

/// The key-schedule register for a master key: permuted choice 1, split
/// into its upper and lower 28 bits.
pub open spec fn schedule_start(master_key: u64) -> LRKey {
    let k = permuted(master_key, PC1_TABLE@, 64);
    LRKey { left: (k >> 28u64) as u32, right: (k & 0x0fff_ffff) as u32 }
}

/// The register after round `round` and that round's key: both halves
/// rotated by the round's shift, then permuted choice 2 of the register.
pub open spec fn schedule_step(state: LRKey, round: usize) -> (LRKey, u64) {
    let s = SHIFTS@[(round % 16) as int] as u32;
    let next = LRKey { left: rotl28(state.left, s), right: rotl28(state.right, s) };
    (next, permuted(((next.left as u64) << 28u64) | (next.right as u64), PC2_TABLE@, 56))
}

/// The starting register of the key schedule for `master_key`.
pub fn key_schedule_init(master_key: u64) -> (r: LRKey)
    ensures
        r == schedule_start(master_key),
{
    let k = permute(master_key, PC1_TABLE.as_slice(), 64);
    LRKey { left: (k >> 28u64) as u32, right: (k & 0x0fff_ffff) as u32 }
}

/// One step of the key schedule (the shifts repeat every 16 rounds).
pub fn key_schedule_step(state: LRKey, round: usize) -> (r: (LRKey, u64))
    ensures
        r == schedule_step(state, round),
{
    let s = SHIFTS[round % 16] as u32;
    proof {
        lemma_shifts_small();
    }
    let next = LRKey { left: rotate28(state.left, s), right: rotate28(state.right, s) };
    let packed = next.to_u64();
    (next, permute(packed, PC2_TABLE.as_slice(), 56))
}

/// Every shift of the key schedule is one or two bits.
proof fn lemma_shifts_small()
    ensures
        forall|i: int| 0 <= i < 16 ==> #[trigger] SHIFTS@[i] <= 2,
{
}

/// The initial permutation of a 64-bit block.
pub fn initial_permutation(x: u64) -> (r: u64)
    ensures
        r == permuted(x, IP_TABLE@, 64),
{
    permute(x, IP_TABLE.as_slice(), 64)
}

/// The final permutation of a 64-bit block.
pub fn final_permutation(x: u64) -> (r: u64)
    ensures
        r == permuted(x, FP_TABLE@, 64),
{
    permute(x, FP_TABLE.as_slice(), 64)
}

/// The expansion of a 32-bit half block to 48 bits.
pub fn expansion(x: u32) -> (r: u64)
    ensures
        r == permuted(x as u64, E_TABLE@, 32),
{
    permute(x as u64, E_TABLE.as_slice(), 32)
}

/// The permutation of the 32-bit S-box output.
pub fn p_permutation(x: u32) -> (r: u32)
    ensures
        r == permuted(x as u64, P_TABLE@, 32) as u32,
{
    permute(x as u64, P_TABLE.as_slice(), 32) as u32
}

/// The block split into its upper (left) and lower (right) 32 bits.
pub fn split_block(x: u64) -> (r: (u32, u32))
    ensures
        r == ((x >> 32u64) as u32, x as u32),
{
    ((x >> 32u64) as u32, x as u32)
}

/// The block whose upper half is `r` and lower half `l`: the halves are
/// swapped after the last round.
pub fn swap_combine(l: u32, r: u32) -> (b: u64)
    ensures
        b == ((r as u64) << 32u64) | (l as u64),
{
    ((r as u64) << 32u64) | (l as u64)
}

impl<IP, IPI, SP, CO, KI, KSt, X, K, S, P> DESBuilder<IP, IPI, SP, CO, LRKey, KI, KSt, X, K, S, P> where
    IP: Fn(u64) -> u64,
    IPI: Fn(u64) -> u64,
    SP: Fn(u64) -> (u32, u32),
    CO: Fn(u32, u32) -> u64,
    KI: Fn(u64) -> LRKey,
    KSt: Fn(LRKey, usize) -> (LRKey, u64),
    X: Fn(u32) -> u64,
    K: Fn(u64, u64) -> u64,
    S: Fn(u64) -> u32,
    P: Fn(u32) -> u32,
 {
    /// Every configured part accepts every input.
    pub open spec fn parts_total(&self) -> bool {
        &&& forall|x: u64| #[trigger] call_requires(self.ip_opt()->Some_0, (x,))
        &&& forall|x: u64| #[trigger] call_requires(self.ip_inv_opt()->Some_0, (x,))
        &&& forall|x: u64| #[trigger] call_requires(self.split_opt()->Some_0, (x,))
        &&& forall|a: u32, b: u32| #[trigger] call_requires(self.combine_opt()->Some_0, (a, b))
        &&& forall|k: u64| #[trigger] call_requires(self.key_schedule_opt()->Some_0.init_fn(), (k,))
        &&& forall|s: LRKey, n: usize| #[trigger] call_requires(self.key_schedule_opt()->Some_0.step_fn(), (s, n))
        &&& self.f_opt()->Some_0.total()
    }

    /// Every configured part computes what standard DES prescribes.
    pub open spec fn is_standard_builder(&self) -> bool {
        &&& forall|x: u64, y: u64| #[trigger] call_ensures(self.ip_opt()->Some_0, (x,), y) ==> y == permuted(x, IP_TABLE@, 64)
        &&& forall|x: u64, y: u64| #[trigger] call_ensures(self.ip_inv_opt()->Some_0, (x,), y) ==> y == permuted(x, FP_TABLE@, 64)
        &&& forall|x: u64, y: (u32, u32)| #[trigger] call_ensures(self.split_opt()->Some_0, (x,), y) ==> y == ((x >> 32u64) as u32, x as u32)
        &&& forall|a: u32, b: u32, y: u64| #[trigger] call_ensures(self.combine_opt()->Some_0, (a, b), y) ==> y == ((b as u64) << 32u64) | (a as u64)
        &&& forall|k: u64, s: LRKey| #[trigger] call_ensures(self.key_schedule_opt()->Some_0.init_fn(), (k,), s) ==> s == schedule_start(k)
        &&& forall|s: LRKey, n: usize, y: (LRKey, u64)| #[trigger] call_ensures(self.key_schedule_opt()->Some_0.step_fn(), (s, n), y) ==> y == schedule_step(s, n)
        &&& forall|x: u32, y: u64| #[trigger] call_ensures(self.f_opt()->Some_0.expand_fn(), (x,), y) ==> y == permuted(x as u64, E_TABLE@, 32)
        &&& forall|e: u64, k: u64, y: u64| #[trigger] call_ensures(self.f_opt()->Some_0.key_mix_fn(), (e, k), y) ==> y == e ^ k
        &&& forall|x: u64, y: u32| #[trigger] call_ensures(self.f_opt()->Some_0.substitute_fn(), (x,), y) ==> y == substituted(x, 8) as u32
        &&& forall|x: u32, y: u32| #[trigger] call_ensures(self.f_opt()->Some_0.permute_fn(), (x,), y) ==> y == permuted(x as u64, P_TABLE@, 32) as u32
    }
}

/// A builder with every part of standard DES configured and 16 rounds; its
/// master key is given to `build`.
pub fn canonical_builder() -> (r: DESBuilder<
    impl Fn(u64) -> u64,
    impl Fn(u64) -> u64,
    impl Fn(u64) -> (u32, u32),
    impl Fn(u32, u32) -> u64,
    LRKey,
    impl Fn(u64) -> LRKey,
    impl Fn(LRKey, usize) -> (LRKey, u64),
    impl Fn(u32) -> u64,
    impl Fn(u64, u64) -> u64,
    impl Fn(u64) -> u32,
    impl Fn(u32) -> u32,
>)
    ensures
        r.complete(),
        r.rounds_count() == 16,
        r.parts_total(),
        r.is_standard_builder(),
{
    let f = FeistelFBuilder::new()
        .expand(|x: u32| -> (y: u64)
            ensures
                y == permuted(x as u64, E_TABLE@, 32),
            { expansion(x) })
        .key_mix(|e: u64, k: u64| -> (y: u64)
            ensures
                y == e ^ k,
            { e ^ k })
        .substitute(|x: u64| -> (y: u32)
            ensures
                y == substituted(x, 8) as u32,
            { substitute(x) })
        .permute(|x: u32| -> (y: u32)
            ensures
                y == permuted(x as u64, P_TABLE@, 32) as u32,
            { p_permutation(x) })
        .build();
    let key_schedule = KeyScheduleBuilder::new()
        .init(|k: u64| -> (s: LRKey)
            ensures
                s == schedule_start(k),
            { key_schedule_init(k) })
        .step(|s: LRKey, n: usize| -> (y: (LRKey, u64))
            ensures
                y == schedule_step(s, n),
            { key_schedule_step(s, n) })
        .build();
    DESBuilder::new()
        .ip(|x: u64| -> (y: u64)
            ensures
                y == permuted(x, IP_TABLE@, 64),
            { initial_permutation(x) })
        .ip_inv(|x: u64| -> (y: u64)
            ensures
                y == permuted(x, FP_TABLE@, 64),
            { final_permutation(x) })
        .split(|x: u64| -> (y: (u32, u32))
            ensures
                y == ((x >> 32u64) as u32, x as u32),
            { split_block(x) })
        .combine(|a: u32, b: u32| -> (y: u64)
            ensures
                y == ((b as u64) << 32u64) | (a as u64),
            { swap_combine(a, b) })
        .key_schedule(key_schedule)
        .f(f)
}

/// The key-schedule register of `master_key` before round `i`.
pub open spec fn key_state(master_key: u64, i: nat) -> LRKey
    decreases i,
{
    if i == 0 {
        schedule_start(master_key)
    } else {
        schedule_step(key_state(master_key, (i - 1) as nat), (i - 1) as usize).0
    }
}

/// The key of round `i` (counted from 0) under `master_key`.
pub open spec fn round_key(master_key: u64, i: nat) -> u64 {
    schedule_step(key_state(master_key, i), i as usize).1
}

/// The standard f-function on a right half and a round key.
pub open spec fn des_f(right: u32, key: u64) -> u32 {
    permuted(substituted(permuted(right as u64, E_TABLE@, 32) ^ key, 8) as u32 as u64, P_TABLE@, 32) as u32
}

/// The halves after `n` rounds of standard DES started on `l0`, `r0`.
pub open spec fn des_halves(master_key: u64, l0: u32, r0: u32, n: nat) -> (u32, u32)
    decreases n,
{
    if n == 0 {
        (l0, r0)
    } else {
        let (l, r) = des_halves(master_key, l0, r0, (n - 1) as nat);
        (r, l ^ des_f(r, round_key(master_key, (n - 1) as nat)))
    }
}

/// Standard DES with `rounds` rounds: initial permutation, the rounds on
/// the two halves, swap of the halves, final permutation.
pub open spec fn des_encrypt(master_key: u64, plaintext: u64, rounds: nat) -> u64 {
    let ip = permuted(plaintext, IP_TABLE@, 64);
    let (l, r) = des_halves(master_key, (ip >> 32u64) as u32, ip as u32, rounds);
    permuted(((r as u64) << 32u64) | (l as u64), FP_TABLE@, 64)
}

impl<IP, IPI, SP, CO, KI, KSt, X, K, S, P, XO> DES<IP, IPI, SP, CO, LRKey, KI, KSt, X, K, S, P, XO> where
    IP: Fn(u64) -> u64,
    IPI: Fn(u64) -> u64,
    SP: Fn(u64) -> (u32, u32),
    CO: Fn(u32, u32) -> u64,
    KI: Fn(u64) -> LRKey,
    KSt: Fn(LRKey, usize) -> (LRKey, u64),
    X: Fn(u32) -> u64,
    K: Fn(u64, u64) -> u64,
    S: Fn(u64) -> u32,
    P: Fn(u32) -> u32,
    XO: Fn(u32, u32) -> u32,
 {
    /// Every part of this cipher computes what standard DES prescribes.
    pub open spec fn is_standard(&self) -> bool {
        &&& forall|x: u64, y: u64| #[trigger] call_ensures(self.ip_fn(), (x,), y) ==> y == permuted(x, IP_TABLE@, 64)
        &&& forall|x: u64, y: u64| #[trigger] call_ensures(self.ip_inv_fn(), (x,), y) ==> y == permuted(x, FP_TABLE@, 64)
        &&& forall|x: u64, y: (u32, u32)| #[trigger] call_ensures(self.split_fn(), (x,), y) ==> y == ((x >> 32u64) as u32, x as u32)
        &&& forall|a: u32, b: u32, y: u64| #[trigger] call_ensures(self.combine_fn(), (a, b), y) ==> y == ((b as u64) << 32u64) | (a as u64)
        &&& forall|k: u64, s: LRKey| #[trigger] call_ensures(self.key_schedule().init_fn(), (k,), s) ==> s == schedule_start(k)
        &&& forall|s: LRKey, n: usize, y: (LRKey, u64)| #[trigger] call_ensures(self.key_schedule().step_fn(), (s, n), y) ==> y == schedule_step(s, n)
        &&& forall|x: u32, y: u64| #[trigger] call_ensures(self.f().expand_fn(), (x,), y) ==> y == permuted(x as u64, E_TABLE@, 32)
        &&& forall|e: u64, k: u64, y: u64| #[trigger] call_ensures(self.f().key_mix_fn(), (e, k), y) ==> y == e ^ k
        &&& forall|x: u64, y: u32| #[trigger] call_ensures(self.f().substitute_fn(), (x,), y) ==> y == substituted(x, 8) as u32
        &&& forall|x: u32, y: u32| #[trigger] call_ensures(self.f().permute_fn(), (x,), y) ==> y == permuted(x as u64, P_TABLE@, 32) as u32
    }

    /// A cipher whose parts are those of a standard builder is standard,
    /// and accepts every input wherever the builder's parts do.
    pub proof fn lemma_built_standard(&self, b: DESBuilder<IP, IPI, SP, CO, LRKey, KI, KSt, X, K, S, P>)
        requires
            b.complete(),
            b.is_standard_builder(),
            self.ip_fn() == b.ip_opt()->Some_0,
            self.ip_inv_fn() == b.ip_inv_opt()->Some_0,
            self.split_fn() == b.split_opt()->Some_0,
            self.combine_fn() == b.combine_opt()->Some_0,
            self.key_schedule() == b.key_schedule_opt()->Some_0,
            self.f() == b.f_opt()->Some_0,
        ensures
            self.is_standard(),
            self.deterministic(),
            b.parts_total() ==> self.accepts_all(),
    {
    }

    /// The key-schedule states `ks` of a run from the master key are the
    /// standard ones, and so are the round keys.
    proof fn lemma_standard_keys(&self, keys: Seq<u64>, ks: Seq<LRKey>, i: nat)
        requires
            self.is_standard(),
            schedule_run(self.key_schedule().step_fn(), ks, 0, keys),
            call_ensures(self.key_schedule().init_fn(), (self.master_key(),), ks[0]),
            i <= keys.len(),
        ensures
            ks[i as int] == key_state(self.master_key(), i),
            i < keys.len() ==> keys[i as int] == round_key(self.master_key(), i),
        decreases i,
    {
        if i > 0 {
            self.lemma_standard_keys(keys, ks, (i - 1) as nat);
            assert(call_ensures(
                self.key_schedule().step_fn(),
                (ks[i - 1], (0 + (i - 1)) as usize),
                (ks[(i - 1) + 1], keys[i - 1]),
            ));
        }
        if i < keys.len() {
            assert(call_ensures(
                self.key_schedule().step_fn(),
                (ks[i as int], (0 + i) as usize),
                (ks[i as int + 1], keys[i as int]),
            ));
        }
    }

    /// The rounds recorded in a standard run follow the standard halves.
    proof fn lemma_standard_rounds(&self, l0: u32, r0: u32, h: Seq<FeistelRoundState<u32, u64>>, i: nat)
        requires
            self.is_standard(),
            self.rounds_from(l0, r0, h),
            forall|j: int| 0 <= j < h.len() ==> #[trigger] h[j].round_key == round_key(self.master_key(), j as nat),
            i <= h.len(),
        ensures
            i < h.len() ==> (h[i as int].left, h[i as int].right) == des_halves(self.master_key(), l0, r0, i),
            i == h.len() ==> des_output(h, l0, r0) == des_halves(self.master_key(), l0, r0, i),
        decreases i,
    {
        if i > 0 {
            self.lemma_standard_rounds(l0, r0, h, (i - 1) as nat);
            let j = (i - 1) as int;
            assert(round_entry(self.f(), h, j));
            let t = h[j].f_trace;
            assert(t.after_permute == des_f(h[j].right, h[j].round_key));
            if i < h.len() {
                assert(des_link(h, i as int));
            }
        }
    }

    /// A standard cipher's encryption is standard DES: the ciphertext is
    /// `des_encrypt` of the master key and the plaintext, and each recorded
    /// round holds the standard halves and round key.
    pub proof fn lemma_standard_encrypts(&self, plaintext: u64, ciphertext: u64, trace: Seq<DESTraceEntry>)
        requires
            self.is_standard(),
            self.encrypts(plaintext, ciphertext, trace),
        ensures
            ciphertext == des_encrypt(self.master_key(), plaintext, self.rounds() as nat),
            forall|i: int| 0 <= i < self.rounds() ==> {
                let e = #[trigger] self.trace_rounds(trace)[i];
                let ip = permuted(plaintext, IP_TABLE@, 64);
                &&& (e.left, e.right) == des_halves(self.master_key(), (ip >> 32u64) as u32, ip as u32, i as nat)
                &&& e.round_key == round_key(self.master_key(), i as nat)
            },
    {
        let n = self.rounds() as int;
        let h = self.trace_rounds(trace);
        let ipo = trace[0]->IP_output;
        let fpi = trace[n + 1]->FP_input;
        let (l0, r0) = choose|l0: u32, r0: u32| #[trigger] self.halves(ipo, fpi, h, l0, r0);
        let ks = choose|ks: Seq<LRKey>| #[trigger] self.keyed(h, ks);
        let keys = h.map_values(|e: FeistelRoundState<u32, u64>| e.round_key);
        assert forall|j: int| 0 <= j < h.len() implies #[trigger] h[j].round_key == round_key(self.master_key(), j as nat) by {
            self.lemma_standard_keys(keys, ks, j as nat);
        }
        assert(ipo == permuted(plaintext, IP_TABLE@, 64));
        assert((l0, r0) == ((ipo >> 32u64) as u32, ipo as u32));
        self.lemma_standard_rounds(l0, r0, h, h.len());
        assert forall|i: int| 0 <= i < self.rounds() implies {
            let e = #[trigger] self.trace_rounds(trace)[i];
            let ip = permuted(plaintext, IP_TABLE@, 64);
            &&& (e.left, e.right) == des_halves(self.master_key(), (ip >> 32u64) as u32, ip as u32, i as nat)
            &&& e.round_key == round_key(self.master_key(), i as nat)
        } by {
            self.lemma_standard_rounds(l0, r0, h, i as nat);
        }
    }
}

} // verus!
