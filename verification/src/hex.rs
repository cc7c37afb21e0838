//! Reading a hexadecimal number given on the command line.
use vstd::prelude::*;

verus! {

/// Why a hexadecimal number could not be read.
#[derive(Clone, Copy, Debug, PartialEq, Eq, Structural)]
pub enum ParseHexError {
    /// Nothing is left once the `0x` / `0X` prefixes are removed.
    Empty,
    /// A character is not a hexadecimal digit.
    InvalidDigit,
    /// The number does not fit in 64 bits.
    PosOverflow,
}

/// `s` with every leading repetition of the two bytes `p0 p1` removed.
pub open spec fn strip_repeated(s: Seq<u8>, p0: u8, p1: u8) -> Seq<u8>
    decreases s.len(),
{
    if s.len() >= 2 && s[0] == p0 && s[1] == p1 {
        strip_repeated(s.skip(2), p0, p1)
    } else {
        s
    }
}

/// `s` without its leading `0x` prefixes, then without its leading `0X`
/// prefixes.
pub open spec fn strip_hex_prefix(s: Seq<u8>) -> Seq<u8> {
    strip_repeated(strip_repeated(s, 0x30, 0x78), 0x30, 0x58)
}

/// The value of a hexadecimal digit (either case), if `b` is one.
pub open spec fn hex_digit_value(b: u8) -> Option<nat> {
    if 0x30 <= b <= 0x39 {
        Some((b - 0x30) as nat)
    } else if 0x61 <= b <= 0x66 {
        Some((b - 0x61 + 10) as nat)
    } else if 0x41 <= b <= 0x46 {
        Some((b - 0x41 + 10) as nat)
    } else {
        None
    }
}

/// Reads the digits `d` after the value `acc` read so far, left to right:
/// the first byte that is not a digit is an `InvalidDigit` error; a digit
/// that takes the value past `u64::MAX` is a `PosOverflow` error.
pub open spec fn read_digits(d: Seq<u8>, acc: nat) -> Result<nat, ParseHexError>
    decreases d.len(),
{
    if d.len() == 0 {
        Ok(acc)
    } else {
        match hex_digit_value(d[0]) {
            None => Err(ParseHexError::InvalidDigit),
            Some(v) => if acc * 16 + v > u64::MAX {
                Err(ParseHexError::PosOverflow)
            } else {
                read_digits(d.drop_first(), acc * 16 + v)
            },
        }
    }
}

/// A hexadecimal number without prefixes: empty is an error, a single sign
/// is an invalid digit, and one leading `+` is allowed.
pub open spec fn read_hex(d: Seq<u8>) -> Result<nat, ParseHexError> {
    if d.len() == 0 {
        Err(ParseHexError::Empty)
    } else if d.len() == 1 && (d[0] == 0x2b || d[0] == 0x2d) {
        Err(ParseHexError::InvalidDigit)
    } else if d[0] == 0x2b {
        read_digits(d.drop_first(), 0)
    } else {
        read_digits(d, 0)
    }
}

/// Which bytes are hexadecimal digits, and what they are worth: `0`-`9`,
/// `a`-`f` and `A`-`F` are exactly the digits, each below 16, and a
/// lower-case letter is worth as much as its upper-case form.
pub proof fn lemma_hex_digit_bytes(b: u8)
    ensures
        (hex_digit_value(b) is Some) <==> ((0x30 <= b <= 0x39) || (0x61 <= b <= 0x66) || (0x41
            <= b <= 0x46)),
        0x30 <= b <= 0x39 ==> hex_digit_value(b) == Some((b - 0x30) as nat),
        0x41 <= b <= 0x46 ==> hex_digit_value(b) == Some((b - 0x41 + 10) as nat),
        0x41 <= b <= 0x46 ==> hex_digit_value((b + 0x20) as u8) == hex_digit_value(b),
        hex_digit_value(b) is Some ==> hex_digit_value(b)->Some_0 < 16,
{
}

/// The bytes of a string of ASCII characters.
pub open spec fn ascii_bytes(s: Seq<char>) -> Seq<u8> {
    Seq::new(s.len(), |i: int| (s[i] as int) as u8)
}

/// One more digit after digits that read to `x` makes `16 x + y`.
proof fn lemma_read_digits_push(d: Seq<u8>, acc: nat, x: nat, c: u8, y: nat)
    requires
        read_digits(d, acc) == Ok::<nat, ParseHexError>(x),
        hex_digit_value(c) == Some(y),
        x * 16 + y <= u64::MAX,
    ensures
        read_digits(d.push(c), acc) == Ok::<nat, ParseHexError>(x * 16 + y),
    decreases d.len(),
{
    let e = d.push(c);
    if d.len() == 0 {
        assert(x == acc);
        assert(e.len() == 1 && e[0] == c);
        assert(e.drop_first() =~= Seq::<u8>::empty());
        assert(read_digits(e.drop_first(), acc * 16 + y) == Ok::<nat, ParseHexError>(acc * 16 + y));
    } else {
        let v0 = hex_digit_value(d[0])->Some_0;
        assert(e[0] == d[0]);
        assert(e.drop_first() =~= d.drop_first().push(c));
        lemma_read_digits_push(d.drop_first(), acc * 16 + v0, x, c, y);
        assert(acc * 16 + v0 <= u64::MAX);
    }
}

/// The lower-case hexadecimal digits of a 64-bit value read back to it.
proof fn lemma_read_hex_digits(v: nat, width: nat)
    requires
        v <= u64::MAX,
    ensures
        read_digits(ascii_bytes(crate::display::digits(v, 16, width)), 0) == Ok::<nat, ParseHexError>(v),
        crate::display::digits(v, 16, width).len() >= width,
        forall|i: int|
            0 <= i < crate::display::digits(v, 16, width).len() ==> {
                let c = #[trigger] ascii_bytes(crate::display::digits(v, 16, width))[i];
                (0x30 <= c <= 0x39) || (0x61 <= c <= 0x66)
            },
    decreases v, width,
{
    let d = crate::display::digits(v, 16, width);
    if v == 0 && width == 0 {
        assert(ascii_bytes(d) =~= Seq::<u8>::empty());
    } else {
        let w2: nat = if width > 0 { (width - 1) as nat } else { 0 };
        if v > 0 {
            vstd::arithmetic::div_mod::lemma_div_is_strictly_smaller(v as int, 16);
        } else {
            vstd::arithmetic::div_mod::lemma_div_of0(16);
        }
        lemma_read_hex_digits(v / 16, w2);
        let p = crate::display::digits(v / 16, 16, w2);
        let r = v % 16;
        assert(d == p.push(crate::display::digit_char(r)));
        let c: u8 = (crate::display::digit_char(r) as int) as u8;
        assert(ascii_bytes(d) =~= ascii_bytes(p).push(c));
        assert(hex_digit_value(c) == Some(r));
        assert(v == (v / 16) * 16 + r);
        lemma_read_digits_push(ascii_bytes(p), 0, v / 16, c, r);
        assert forall|i: int| 0 <= i < d.len() implies {
            let b = #[trigger] ascii_bytes(d)[i];
            (0x30 <= b <= 0x39) || (0x61 <= b <= 0x66)
        } by {
            if i < p.len() {
                assert(ascii_bytes(d)[i] == ascii_bytes(p)[i]);
            }
        }
    }
}

/// Reading a value's `0x`-prefixed hexadecimal rendering gives the value
/// back, for every 64-bit value and every width of at least one digit.
pub proof fn lemma_parse_reads_formatted_hex(v: nat, hex_width: nat, bin_width: nat)
    requires
        v <= u64::MAX,
        hex_width >= 1,
    ensures
        read_hex(strip_hex_prefix(ascii_bytes(crate::display::formatted(v, crate::display::Format::Hex, hex_width, bin_width))))
            == Ok::<nat, ParseHexError>(v),
{
    let d = crate::display::digits(v, 16, hex_width);
    lemma_read_hex_digits(v, hex_width);
    let bd = ascii_bytes(d);
    let s = ascii_bytes(crate::display::formatted(v, crate::display::Format::Hex, hex_width, bin_width));
    assert(s =~= seq![0x30u8, 0x78u8] + bd);
    assert(s.skip(2) =~= bd);
    assert(bd.len() >= 1);
    let c0 = bd[0];
    assert((0x30 <= c0 <= 0x39) || (0x61 <= c0 <= 0x66));
    if bd.len() >= 2 {
        let c1 = bd[1];
        assert((0x30 <= c1 <= 0x39) || (0x61 <= c1 <= 0x66));
    }
    assert(strip_repeated(s, 0x30, 0x78) == strip_repeated(bd, 0x30, 0x78));
    assert(strip_repeated(bd, 0x30, 0x78) == bd);
    assert(strip_repeated(bd, 0x30, 0x58) == bd);
    assert(strip_hex_prefix(s) == bd);
}

/// The position after the leading repetitions of `p0 p1` in `s` from `start`.
fn skip_repeated(s: &[u8], start: usize, p0: u8, p1: u8) -> (r: usize)
    requires
        start <= s@.len(),
    ensures
        start <= r <= s@.len(),
        s@.skip(r as int) == strip_repeated(s@.skip(start as int), p0, p1),
    decreases s@.len() - start,
{
    if start < s.len() && s.len() - start > 1 && s[start] == p0 && s[start + 1] == p1 {
        let r = skip_repeated(s, start + 2, p0, p1);
        proof {
            assert(s@.skip(start as int).skip(2) =~= s@.skip(start + 2));
        }
        r
    } else {
        start
    }
}

/// The value of a hexadecimal digit byte.
fn digit_value(b: u8) -> (r: Option<u64>)
    ensures
        match hex_digit_value(b) {
            None => r is None,
            Some(v) => r == Some(v as u64),
        },
{
    if 0x30 <= b && b <= 0x39 {
        Some((b - 0x30) as u64)
    } else if 0x61 <= b && b <= 0x66 {
        Some((b - 0x61 + 10) as u64)
    } else if 0x41 <= b && b <= 0x46 {
        Some((b - 0x41 + 10) as u64)
    } else {
        None
    }
}

/// Reads a hexadecimal number, after removing leading `0x` prefixes and then
/// leading `0X` prefixes.
pub fn parse_hex(s: &[u8]) -> (r: Result<u64, ParseHexError>)
    ensures
        match read_hex(strip_hex_prefix(s@)) {
            Ok(v) => r == Ok::<u64, ParseHexError>(v as u64),
            Err(e) => r == Err::<u64, ParseHexError>(e),
        },
{
    let a = skip_repeated(s, 0, 0x30, 0x78);
    let b = skip_repeated(s, a, 0x30, 0x58);
    let ghost d = s@.skip(b as int);
    proof {
        assert(s@.skip(0) =~= s@);
        assert(d == strip_hex_prefix(s@));
    }
    let len = s.len();
    if b == len {
        return Err(ParseHexError::Empty);
    }
    if b + 1 == len && (s[b] == 0x2b || s[b] == 0x2d) {
        return Err(ParseHexError::InvalidDigit);
    }
    let mut i = b;
    if s[b] == 0x2b {
        i = b + 1;
        proof {
            assert(d.drop_first() =~= s@.skip(i as int));
        }
    }
    let mut acc: u64 = 0;
    while i < len
        invariant
            b <= i <= len,
            len == s@.len(),
            d == strip_hex_prefix(s@),
            read_hex(d) == read_digits(s@.skip(i as int), acc as nat),
        decreases len - i,
    {
        let ghost rest = s@.skip(i as int);
        assert(rest.len() > 0 && rest[0] == s@[i as int]);
        match digit_value(s[i]) {
            None => {
                return Err(ParseHexError::InvalidDigit);
            },
            Some(v) => {
                match acc.checked_mul(16) {
                    None => {
                        return Err(ParseHexError::PosOverflow);
                    },
                    Some(m) => {
                        match m.checked_add(v) {
                            None => {
                                return Err(ParseHexError::PosOverflow);
                            },
                            Some(n) => {
                                acc = n;
                            },
                        }
                    },
                }
            },
        }
        i += 1;
        proof {
            assert(rest.drop_first() =~= s@.skip(i as int));
        }
    }
    proof {
        assert(s@.skip(i as int) =~= Seq::<u8>::empty());
    }
    Ok(acc)
}

} // verus!
