use griffon::display::{fmt32, fmt48, fmt64, render_trace, stage_label, Format, Step};
use griffon::{canonical_builder, DESTraceEntry};

#[test]
fn formats_hex_and_binary() {
    assert_eq!(fmt64(0x0123_4567_89ab_cdef, &Format::Hex), "0x0123456789abcdef");
    assert_eq!(fmt32(0xcc00_ccff, &Format::Hex), "0xcc00ccff");
    assert_eq!(fmt48(0x1b02_effc_7072, &Format::Hex), "0x1b02effc7072");
    assert_eq!(fmt48(0x1_0000_0000_0000, &Format::Hex), "0x1000000000000");
    assert_eq!(fmt32(5, &Format::Bin), format!("0b{:032b}", 5));
    assert_eq!(fmt64(0, &Format::Bin), format!("0b{}", "0".repeat(64)));
    assert_eq!(fmt48(3, &Format::Bin), format!("0b{:048b}", 3));
    assert_eq!(Format::default(), Format::Hex);
}

#[test]
fn stage_labels() {
    assert_eq!(stage_label(&DESTraceEntry::IP { input: 0, output: 0 }), "Initial Permutation");
    assert_eq!(stage_label(&DESTraceEntry::FP { input: 0, output: 0 }), "Final Permutation");
    let mut des = canonical_builder().build(1);
    let (_, trace) = des.encrypt(2);
    assert_eq!(stage_label(&trace[1]), "Round  1");
    assert_eq!(stage_label(&trace[16]), "Round 16");
}

#[test]
fn report_matches_documented_output() {
    let mut des = canonical_builder().build(0x1334_5779_9BBC_DFF1);
    let (c, trace) = des.encrypt(0x0123_4567_89AB_CDEF);
    let lines = render_trace(0x0123_4567_89AB_CDEF, 0x1334_5779_9BBC_DFF1, c, &trace, &Format::Hex, &[]);
    let expected = [
        "=== DES Trace ===",
        "Plaintext:  0x0123456789abcdef",
        "Key:        0x133457799bbcdff1",
        "Ciphertext: 0x85e813540f0ab405",
        "",
        "[ 1 / 18]  Initial Permutation",
        "  input:   0x0123456789abcdef",
        "  output:  0xcc00ccfff0aaf0aa",
        "",
        "[ 2 / 18]  Round  1",
        "  left:      0xcc00ccff",
        "  right:     0xf0aaf0aa",
        "  round_key: 0x1b02effc7072",
        "  f-steps:",
        "    expand      0x7a15557a1555",
        "    key_mix     0x6117ba866527",
        "    substitute  0x5c82b597",
        "    permute     0x234aa9bb",
        "",
        "[ 3 / 18]  Round  2",
        "  left:      0xf0aaf0aa",
        "  right:     0xef4a6544",
        "  round_key: 0x79aed9dbc9e5",
        "  f-steps:",
        "    expand      0x75ea5430aa09",
        "    key_mix     0x0c448deb63ec",
        "    substitute  0xf8d03aae",
        "    permute     0x3cab87a3",
    ];
    for (i, e) in expected.iter().enumerate() {
        assert_eq!(lines[i], *e, "line {}", i);
    }
    assert_eq!(lines.last().unwrap(), "  output:  0x85e813540f0ab405");
}

#[test]
fn report_skips_steps() {
    let mut des = canonical_builder().rounds(1).build(0x1334_5779_9BBC_DFF1);
    let (c, trace) = des.encrypt(0x0123_4567_89AB_CDEF);
    let lines = render_trace(0, 0, c, &trace, &Format::Hex, &[Step::Expand, Step::Permute]);
    assert!(lines.contains(&"    key_mix     0x6117ba866527".to_string()));
    assert!(!lines.iter().any(|l| l.starts_with("    expand")));
    assert!(!lines.iter().any(|l| l.starts_with("    permute")));
    let all = render_trace(0, 0, c, &trace, &Format::Bin, &[Step::Expand, Step::KeyMix, Step::Substitute, Step::Permute]);
    assert!(!all.iter().any(|l| l == "  f-steps:"));
    assert_eq!(all[1], format!("Plaintext:  0b{}", "0".repeat(64)));
}

#[test]
fn wide_round_numbers_are_not_cut() {
    let mut des = canonical_builder().rounds(100).build(7);
    let (c, trace) = des.encrypt(9);
    assert_eq!(stage_label(&trace[100]), "Round 100");
    let lines = render_trace(9, 7, c, &trace, &Format::Hex, &[]);
    assert!(lines.contains(&"[101 / 102]  Round 100".to_string()));
}
