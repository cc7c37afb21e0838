use griffon::hex::{parse_hex, ParseHexError};

#[test]
fn parses_prefixed_and_bare_hex() {
    assert_eq!(parse_hex(b"0x0123456789ABCDEF"), Ok(0x0123_4567_89AB_CDEF));
    assert_eq!(parse_hex(b"0X133457799bbcdff1"), Ok(0x1334_5779_9BBC_DFF1));
    assert_eq!(parse_hex(b"ff"), Ok(255));
    assert_eq!(parse_hex(b"0x0xff"), Ok(255));
    assert_eq!(parse_hex(b"+1f"), Ok(31));
    assert_eq!(parse_hex(b"ffffffffffffffff"), Ok(u64::MAX));
    assert_eq!(parse_hex(b"0"), Ok(0));
}

#[test]
fn reports_each_error() {
    assert_eq!(parse_hex(b""), Err(ParseHexError::Empty));
    assert_eq!(parse_hex(b"0x"), Err(ParseHexError::Empty));
    assert_eq!(parse_hex(b"+"), Err(ParseHexError::InvalidDigit));
    assert_eq!(parse_hex(b"-1"), Err(ParseHexError::InvalidDigit));
    assert_eq!(parse_hex(b"0X0xff"), Err(ParseHexError::InvalidDigit));
    assert_eq!(parse_hex(b"12g4"), Err(ParseHexError::InvalidDigit));
    assert_eq!(parse_hex(b"10000000000000000"), Err(ParseHexError::PosOverflow));
}

#[test]
fn agrees_with_std_parser() {
    for s in ["0", "1", "abc", "ABC", "+7", "-7", "ffffffffffffffff", "1ffffffffffffffff", "x", "0g"] {
        let std = u64::from_str_radix(s, 16).map_err(|e| e.kind().clone());
        let ours = parse_hex(s.as_bytes());
        match (std, ours) {
            (Ok(a), Ok(b)) => assert_eq!(a, b),
            (Err(_), Err(_)) => {}
            (a, b) => panic!("{}: {:?} vs {:?}", s, a, b),
        }
    }
}
