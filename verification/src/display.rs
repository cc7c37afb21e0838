//! Text rendering of values and traces: fixed-width hexadecimal and binary
//! numbers, stage labels, and the line-by-line trace report.
use crate::blockcipher::feistel::FeistelRoundState;
use crate::des::DESTraceEntry;
use vstd::prelude::*;

verus! {

/// How numbers are shown.
#[derive(Clone, Copy, Debug, PartialEq, Eq, Structural)]
pub enum Format {
    Hex,
    Bin,
}

impl Default for Format {
    fn default() -> (r: Self)
        ensures
            r == Format::Hex,
    {
        Format::Hex
    }
}

/// The sub-steps of the f-function, as named when they are hidden from a
/// report.
#[derive(Clone, Copy, Debug, PartialEq, Eq, Structural)]
pub enum Step {
    Expand,
    KeyMix,
    Substitute,
    Permute,
}

/// The character of digit `d` (0-9, then lower-case a-z).
pub open spec fn digit_char(d: nat) -> char {
    if d < 10 {
        (48 + d) as char
    } else {
        (87 + d) as char
    }
}

/// The digits of `v` in base `base`, most significant first, zero-padded on
/// the left to at least `width` digits (no digits for 0 at width 0).
pub open spec fn digits(v: nat, base: nat, width: nat) -> Seq<char>
    decreases v, width,
{
    if base < 2 || (v == 0 && width == 0) {
        seq![]
    } else {
        proof {
            if v > 0 {
                vstd::arithmetic::div_mod::lemma_div_is_strictly_smaller(v as int, base as int);
            } else {
                vstd::arithmetic::div_mod::lemma_div_of0(base as int);
            }
        }
        digits(v / base, base, if width > 0 { (width - 1) as nat } else { 0 }).push(digit_char(v % base))
    }
}

/// `count` spaces.
pub open spec fn spaces(count: nat) -> Seq<char> {
    Seq::new(count, |i: int| ' ')
}

/// `s` right-aligned in a field of `width` characters.
pub open spec fn pad_left(s: Seq<char>, width: nat) -> Seq<char> {
    spaces(if s.len() < width { (width - s.len()) as nat } else { 0 }) + s
}

/// `s` left-aligned in a field of `width` characters.
pub open spec fn pad_right(s: Seq<char>, width: nat) -> Seq<char> {
    s + spaces(if s.len() < width { (width - s.len()) as nat } else { 0 })
}

/// `v` in decimal, without leading zeros.
pub open spec fn decimal(v: nat) -> Seq<char> {
    digits(v, 10, 1)
}

/// `v` as `0x` and at least `hex_width` hexadecimal digits, or as `0b` and
/// at least `bin_width` binary digits.
pub open spec fn formatted(v: nat, f: Format, hex_width: nat, bin_width: nat) -> Seq<char> {
    match f {
        Format::Hex => seq!['0', 'x'] + digits(v, 16, hex_width),
        Format::Bin => seq!['0', 'b'] + digits(v, 2, bin_width),
    }
}

/// The value of a digit character (0-9, then lower-case a-z).
pub open spec fn char_digit_value(c: char) -> int {
    if '0' <= c <= '9' {
        c as int - '0' as int
    } else {
        c as int - 'a' as int + 10
    }
}

/// The number that the digit string `s` writes in base `base`, most
/// significant digit first.
pub open spec fn read_number(s: Seq<char>, base: nat) -> int
    decreases s.len(),
{
    if s.len() == 0 {
        0
    } else {
        read_number(s.drop_last(), base) * base + char_digit_value(s.last())
    }
}

/// Digit strings read back to the number they were made from, have at
/// least the requested width, and use only digits below the base.
pub proof fn lemma_digits_read_back(v: nat, base: nat, width: nat)
    requires
        2 <= base <= 16,
    ensures
        read_number(digits(v, base, width), base) == v,
        digits(v, base, width).len() >= width,
        forall|i: int|
            0 <= i < digits(v, base, width).len() ==> 0 <= #[trigger] char_digit_value(digits(v, base, width)[i]) < base,
    decreases v, width,
{
    let d = digits(v, base, width);
    if v == 0 && width == 0 {
    } else {
        let w2: nat = if width > 0 { (width - 1) as nat } else { 0 };
        if v > 0 {
            vstd::arithmetic::div_mod::lemma_div_is_strictly_smaller(v as int, base as int);
        } else {
            vstd::arithmetic::div_mod::lemma_div_of0(base as int);
        }
        lemma_digits_read_back(v / base, base, w2);
        let p = digits(v / base, base, w2);
        let r = v % base;
        assert(d == p.push(digit_char(r)));
        assert(d.drop_last() =~= p);
        assert(char_digit_value(digit_char(r)) == r);
        vstd::arithmetic::div_mod::lemma_fundamental_div_mod(v as int, base as int);
        assert(read_number(d, base) == read_number(p, base) * base + r);
        assert((v / base) * base + r == v) by (nonlinear_arith)
            requires
                v == base * (v / base) + v % base,
                r == v % base,
        ;
        assert forall|i: int| 0 <= i < d.len() implies 0 <= #[trigger] char_digit_value(d[i]) < base by {
            if i < p.len() {
                assert(d[i] == p[i]);
            }
        }
    }
}

/// A formatted value is `0x` or `0b` followed by a digit string of at
/// least the requested width that reads back, in base 16 or 2, to the value
/// itself.
pub proof fn lemma_formatted_reads_back(v: nat, f: Format, hex_width: nat, bin_width: nat)
    ensures
        ({
            let s = formatted(v, f, hex_width, bin_width);
            let base: nat = if f == Format::Hex { 16 } else { 2 };
            let width = if f == Format::Hex { hex_width } else { bin_width };
            &&& s.len() >= 2 + width
            &&& s[0] == '0'
            &&& s[1] == (if f == Format::Hex { 'x' } else { 'b' })
            &&& read_number(s.skip(2), base) == v
        }),
{
    match f {
        Format::Hex => {
            lemma_digits_read_back(v, 16, hex_width);
            assert(formatted(v, f, hex_width, bin_width).skip(2) =~= digits(v, 16, hex_width));
        },
        Format::Bin => {
            lemma_digits_read_back(v, 2, bin_width);
            assert(formatted(v, f, hex_width, bin_width).skip(2) =~= digits(v, 2, bin_width));
        },
    }
}

/// A one-character string for digit `d`.
fn digit_str(d: u64) -> (r: &'static str)
    requires
        d < 16,
    ensures
        r@ == seq![digit_char(d as nat)],
{
    match d {
        0 => { proof { reveal_strlit("0"); } "0" },
        1 => { proof { reveal_strlit("1"); } "1" },
        2 => { proof { reveal_strlit("2"); } "2" },
        3 => { proof { reveal_strlit("3"); } "3" },
        4 => { proof { reveal_strlit("4"); } "4" },
        5 => { proof { reveal_strlit("5"); } "5" },
        6 => { proof { reveal_strlit("6"); } "6" },
        7 => { proof { reveal_strlit("7"); } "7" },
        8 => { proof { reveal_strlit("8"); } "8" },
        9 => { proof { reveal_strlit("9"); } "9" },
        10 => { proof { reveal_strlit("a"); } "a" },
        11 => { proof { reveal_strlit("b"); } "b" },
        12 => { proof { reveal_strlit("c"); } "c" },
        13 => { proof { reveal_strlit("d"); } "d" },
        14 => { proof { reveal_strlit("e"); } "e" },
        _ => { proof { reveal_strlit("f"); } "f" },
    }
}

/// The digits of `v` in base `base` (padded to `width`), least significant
/// first.
fn digit_values(v: u64, base: u64, width: usize) -> (r: Vec<u64>)
    requires
        2 <= base <= 16,
    ensures
        forall|i: int| 0 <= i < r@.len() ==> #[trigger] r@[i] < base,
        Seq::new(r@.len(), |i: int| digit_char(r@[r@.len() - 1 - i] as nat)) == digits(v as nat, base as nat, width as nat),
{
    let mut ds: Vec<u64> = Vec::new();
    let mut x = v;
    let mut w = width;
    while x > 0 || w > 0
        invariant
            2 <= base <= 16,
            forall|i: int| 0 <= i < ds@.len() ==> #[trigger] ds@[i] < base,
            digits(v as nat, base as nat, width as nat) == digits(x as nat, base as nat, w as nat)
                + Seq::new(ds@.len(), |i: int| digit_char(ds@[ds@.len() - 1 - i] as nat)),
        decreases x + w,
    {
        let ghost before = ds@;
        let ghost xs = x;
        let ghost ws = w;
        ds.push(x % base);
        x = x / base;
        w = if w > 0 { w - 1 } else { 0 };
        proof {
            if xs > 0 {
                vstd::arithmetic::div_mod::lemma_div_is_strictly_smaller(xs as int, base as int);
            }
            let acc0 = Seq::new(before.len(), |i: int| digit_char(before[before.len() - 1 - i] as nat));
            let acc1 = Seq::new(ds@.len(), |i: int| digit_char(ds@[ds@.len() - 1 - i] as nat));
            assert(acc1 =~= seq![digit_char((xs % base) as nat)] + acc0);
            assert(digits(xs as nat, base as nat, ws as nat)
                == digits(x as nat, base as nat, w as nat).push(digit_char((xs % base) as nat)));
            assert(digits(x as nat, base as nat, w as nat) + acc1
                =~= digits(x as nat, base as nat, w as nat).push(digit_char((xs % base) as nat)) + acc0);
        }
    }
    proof {
        assert(digits(x as nat, base as nat, w as nat) =~= Seq::<char>::empty());
        let acc = Seq::new(ds@.len(), |i: int| digit_char(ds@[ds@.len() - 1 - i] as nat));
        assert(Seq::<char>::empty() + acc =~= acc);
    }
    ds
}

/// Appends the digits `ds` (least significant first) to `out`, most
/// significant first.
fn push_digit_values(out: &mut String, ds: &Vec<u64>)
    requires
        forall|i: int| 0 <= i < ds@.len() ==> #[trigger] ds@[i] < 16,
    ensures
        final(out)@ == old(out)@ + Seq::new(ds@.len(), |i: int| digit_char(ds@[ds@.len() - 1 - i] as nat)),
{
    let ghost acc = Seq::new(ds@.len(), |i: int| digit_char(ds@[ds@.len() - 1 - i] as nat));
    let mut k: usize = ds.len();
    while k > 0
        invariant
            k <= ds@.len(),
            forall|i: int| 0 <= i < ds@.len() ==> #[trigger] ds@[i] < 16,
            acc == Seq::new(ds@.len(), |i: int| digit_char(ds@[ds@.len() - 1 - i] as nat)),
            out@ == old(out)@ + acc.take(ds@.len() - k),
        decreases k,
    {
        k -= 1;
        out.append(digit_str(ds[k]));
        proof {
            assert(acc.take(ds@.len() - k) =~= acc.take(ds@.len() - k - 1).push(acc[ds@.len() - k - 1]));
        }
    }
    proof {
        assert(acc.take(ds@.len() as int) =~= acc);
    }
}

/// Appends `count` spaces to `out`.
fn push_spaces(out: &mut String, count: usize)
    ensures
        final(out)@ == old(out)@ + spaces(count as nat),
{
    let mut k: usize = 0;
    while k < count
        invariant
            k <= count,
            out@ == old(out)@ + spaces(k as nat),
        decreases count - k,
    {
        proof { reveal_strlit(" "); }
        out.append(" ");
        k += 1;
        proof {
            assert(spaces(k as nat) =~= spaces((k - 1) as nat).push(' '));
        }
    }
}

/// Appends `v` in base `base`, zero-padded to `width` digits, to `out`.
pub(crate) fn push_digits(out: &mut String, v: u64, base: u64, width: usize)
    requires
        2 <= base <= 16,
    ensures
        final(out)@ == old(out)@ + digits(v as nat, base as nat, width as nat),
{
    let ds = digit_values(v, base, width);
    push_digit_values(out, &ds);
}

/// Appends `v` in decimal, right-aligned in a field of `width`, to `out`.
fn push_padded_decimal(out: &mut String, v: u64, width: usize)
    ensures
        final(out)@ == old(out)@ + pad_left(decimal(v as nat), width as nat),
{
    let ds = digit_values(v, 10, 1);
    if ds.len() < width {
        push_spaces(out, width - ds.len());
    } else {
        push_spaces(out, 0);
    }
    push_digit_values(out, &ds);
    proof {
        assert(spaces(0) =~= Seq::<char>::empty());
    }
}

/// `v` in the style `f` with `hex_width` / `bin_width` digits.
fn format_value(v: u64, f: &Format, hex_width: usize, bin_width: usize) -> (r: String)
    ensures
        r@ == formatted(v as nat, *f, hex_width as nat, bin_width as nat),
{
    match f {
        Format::Hex => {
            proof { reveal_strlit("0x"); }
            let mut s = String::from_str("0x");
            push_digits(&mut s, v, 16, hex_width);
            s
        },
        Format::Bin => {
            proof { reveal_strlit("0b"); }
            let mut s = String::from_str("0b");
            push_digits(&mut s, v, 2, bin_width);
            s
        },
    }
}

/// A 64-bit value as `0x` and 16 hex digits, or `0b` and 64 binary digits.
pub fn fmt64(v: u64, f: &Format) -> (r: String)
    ensures
        r@ == formatted(v as nat, *f, 16, 64),
        read_number(r@.skip(2), if *f == Format::Hex { 16 } else { 2 }) == v,
{
    proof {
        lemma_formatted_reads_back(v as nat, *f, 16, 64);
    }
    format_value(v, f, 16, 64)
}

/// A 32-bit value as `0x` and 8 hex digits, or `0b` and 32 binary digits.
pub fn fmt32(v: u32, f: &Format) -> (r: String)
    ensures
        r@ == formatted(v as nat, *f, 8, 32),
        read_number(r@.skip(2), if *f == Format::Hex { 16 } else { 2 }) == v,
{
    proof {
        lemma_formatted_reads_back(v as nat, *f, 8, 32);
    }
    format_value(v as u64, f, 8, 32)
}

/// A 48-bit value as `0x` and 12 hex digits, or `0b` and 48 binary digits
/// (more digits where the value needs them).
pub fn fmt48(v: u64, f: &Format) -> (r: String)
    ensures
        r@ == formatted(v as nat, *f, 12, 48),
        read_number(r@.skip(2), if *f == Format::Hex { 16 } else { 2 }) == v,
{
    proof {
        lemma_formatted_reads_back(v as nat, *f, 12, 48);
    }
    format_value(v, f, 12, 48)
}

/// The name of a trace stage: the permutations by name, a round by its
/// number counted from 1, right-aligned in two columns.
pub open spec fn stage_label_text(e: DESTraceEntry) -> Seq<char> {
    match e {
        DESTraceEntry::IP { .. } => "Initial Permutation"@,
        DESTraceEntry::Round(r) => "Round "@ + pad_left(decimal((r.round + 1) as nat), 2),
        DESTraceEntry::FP { .. } => "Final Permutation"@,
    }
}

/// Round numbers in the entries can be counted from 1 without overflow.
pub open spec fn countable(e: DESTraceEntry) -> bool {
    e is Round ==> e->Round_0.round < usize::MAX
}

/// The label of a trace stage.
pub fn stage_label(entry: &DESTraceEntry) -> (r: String)
    requires
        countable(*entry),
    ensures
        r@ == stage_label_text(*entry),
{
    match entry {
        DESTraceEntry::IP { .. } => String::from_str("Initial Permutation"),
        DESTraceEntry::Round(r) => {
            let mut s = String::from_str("Round ");
            push_padded_decimal(&mut s, (r.round + 1) as u64, 2);
            s
        },
        DESTraceEntry::FP { .. } => String::from_str("Final Permutation"),
    }
}

/// The opening lines of a report.
pub open spec fn header_lines(plaintext: u64, key: u64, ciphertext: u64, f: Format) -> Seq<Seq<char>> {
    seq![
        "=== DES Trace ==="@,
        "Plaintext:  "@ + formatted(plaintext as nat, f, 16, 64),
        "Key:        "@ + formatted(key as nat, f, 16, 64),
        "Ciphertext: "@ + formatted(ciphertext as nat, f, 16, 64),
    ]
}

/// An f-function sub-step line: indented label in 12 columns, then value.
pub open spec fn step_line(label: Seq<char>, value: Seq<char>) -> Seq<char> {
    "    "@ + pad_right(label, 12) + value
}

/// The lines of the f-function sub-steps that `skip` does not hide.
pub open spec fn f_step_lines(r: FeistelRoundState<u32, u64>, f: Format, skip: Seq<Step>) -> Seq<Seq<char>> {
    (if skip.contains(Step::Expand) { seq![] } else {
        seq![step_line("expand"@, formatted(r.f_trace.after_expand as nat, f, 12, 48))]
    }) + (if skip.contains(Step::KeyMix) { seq![] } else {
        seq![step_line("key_mix"@, formatted(r.f_trace.after_key_mix as nat, f, 12, 48))]
    }) + (if skip.contains(Step::Substitute) { seq![] } else {
        seq![step_line("substitute"@, formatted(r.f_trace.after_substitute as nat, f, 8, 32))]
    }) + (if skip.contains(Step::Permute) { seq![] } else {
        seq![step_line("permute"@, formatted(r.f_trace.after_permute as nat, f, 8, 32))]
    })
}

/// An element of `a + b` is an element of `a` or of `b`.
proof fn lemma_concat_contains<T>(a: Seq<T>, b: Seq<T>, x: T)
    ensures
        (a + b).contains(x) <==> a.contains(x) || b.contains(x),
{
    if (a + b).contains(x) {
        let i = choose|i: int| 0 <= i < (a + b).len() && (a + b)[i] == x;
        if i < a.len() {
            assert(a[i] == x);
        } else {
            assert(b[i - a.len()] == x);
        }
    }
    if a.contains(x) {
        let i = choose|i: int| 0 <= i < a.len() && a[i] == x;
        assert((a + b)[i] == x);
    }
    if b.contains(x) {
        let i = choose|i: int| 0 <= i < b.len() && b[i] == x;
        assert((a + b)[a.len() + i] == x);
    }
}

/// A seq of at most one line holds `x` exactly when that line is `x`.
proof fn lemma_optional_line_contains(skipped: bool, line: Seq<char>, x: Seq<char>)
    ensures
        (if skipped { Seq::<Seq<char>>::empty() } else { seq![line] }).contains(x) <==> !skipped && line == x,
{
    if !skipped {
        assert(seq![line][0] == line);
    }
}

/// The report line of the expansion sub-step.
pub open spec fn expand_line(r: FeistelRoundState<u32, u64>, f: Format) -> Seq<char> {
    "    expand      "@ + formatted(r.f_trace.after_expand as nat, f, 12, 48)
}

/// The report line of the key-mixing sub-step.
pub open spec fn key_mix_line(r: FeistelRoundState<u32, u64>, f: Format) -> Seq<char> {
    "    key_mix     "@ + formatted(r.f_trace.after_key_mix as nat, f, 12, 48)
}

/// The report line of the substitution sub-step.
pub open spec fn substitute_line(r: FeistelRoundState<u32, u64>, f: Format) -> Seq<char> {
    "    substitute  "@ + formatted(r.f_trace.after_substitute as nat, f, 8, 32)
}

/// The report line of the permutation sub-step.
pub open spec fn permute_line(r: FeistelRoundState<u32, u64>, f: Format) -> Seq<char> {
    "    permute     "@ + formatted(r.f_trace.after_permute as nat, f, 8, 32)
}

/// Each f-function sub-step has its line among a round's sub-step lines
/// exactly when that step is not in `skip`, whatever else is skipped; the
/// lines come in the order expand, key_mix, substitute, permute.
pub proof fn lemma_f_step_lines_follow_skip(r: FeistelRoundState<u32, u64>, f: Format, skip: Seq<Step>)
    ensures
        f_step_lines(r, f, skip).contains(expand_line(r, f)) <==> !skip.contains(Step::Expand),
        f_step_lines(r, f, skip).contains(key_mix_line(r, f)) <==> !skip.contains(Step::KeyMix),
        f_step_lines(r, f, skip).contains(substitute_line(r, f)) <==> !skip.contains(Step::Substitute),
        f_step_lines(r, f, skip).contains(permute_line(r, f)) <==> !skip.contains(Step::Permute),
        f_step_lines(r, f, skip).len() == (if skip.contains(Step::Expand) { 0int } else { 1 })
            + (if skip.contains(Step::KeyMix) { 0int } else { 1 })
            + (if skip.contains(Step::Substitute) { 0int } else { 1 })
            + (if skip.contains(Step::Permute) { 0int } else { 1 }),
{
    reveal_strlit("    ");
    reveal_strlit("expand");
    reveal_strlit("key_mix");
    reveal_strlit("substitute");
    reveal_strlit("permute");
    reveal_strlit("    expand      ");
    reveal_strlit("    key_mix     ");
    reveal_strlit("    substitute  ");
    reveal_strlit("    permute     ");
    let le = expand_line(r, f);
    let lk = key_mix_line(r, f);
    let ls = substitute_line(r, f);
    let lp = permute_line(r, f);
    assert(step_line("expand"@, formatted(r.f_trace.after_expand as nat, f, 12, 48)) =~= le);
    assert(step_line("key_mix"@, formatted(r.f_trace.after_key_mix as nat, f, 12, 48)) =~= lk);
    assert(step_line("substitute"@, formatted(r.f_trace.after_substitute as nat, f, 8, 32)) =~= ls);
    assert(step_line("permute"@, formatted(r.f_trace.after_permute as nat, f, 8, 32)) =~= lp);
    // the fifth character tells the lines apart
    assert(le[4] == 'e' && lk[4] == 'k' && ls[4] == 's' && lp[4] == 'p');
    let se = skip.contains(Step::Expand);
    let sk = skip.contains(Step::KeyMix);
    let ss = skip.contains(Step::Substitute);
    let sp = skip.contains(Step::Permute);
    let pe = if se { Seq::<Seq<char>>::empty() } else { seq![le] };
    let pk = if sk { Seq::<Seq<char>>::empty() } else { seq![lk] };
    let ps = if ss { Seq::<Seq<char>>::empty() } else { seq![ls] };
    let pp = if sp { Seq::<Seq<char>>::empty() } else { seq![lp] };
    let lines = f_step_lines(r, f, skip);
    assert(lines =~= pe + pk + ps + pp);
    let xs = seq![le, lk, ls, lp];
    assert forall|i: int| 0 <= i < 4 implies {
        let x = #[trigger] xs[i];
        lines.contains(x) <==> (pe.contains(x) || pk.contains(x) || ps.contains(x) || pp.contains(x))
    } by {
        let x = xs[i];
        lemma_concat_contains(pe + pk + ps, pp, x);
        lemma_concat_contains(pe + pk, ps, x);
        lemma_concat_contains(pe, pk, x);
        lemma_optional_line_contains(se, le, x);
        lemma_optional_line_contains(sk, lk, x);
        lemma_optional_line_contains(ss, ls, x);
        lemma_optional_line_contains(sp, lp, x);
    }
    assert(xs[0] == le && xs[1] == lk && xs[2] == ls && xs[3] == lp);
    lemma_optional_line_contains(se, le, le);
    lemma_optional_line_contains(sk, lk, le);
    lemma_optional_line_contains(ss, ls, le);
    lemma_optional_line_contains(sp, lp, le);
    lemma_optional_line_contains(se, le, lk);
    lemma_optional_line_contains(sk, lk, lk);
    lemma_optional_line_contains(ss, ls, lk);
    lemma_optional_line_contains(sp, lp, lk);
    lemma_optional_line_contains(se, le, ls);
    lemma_optional_line_contains(sk, lk, ls);
    lemma_optional_line_contains(ss, ls, ls);
    lemma_optional_line_contains(sp, lp, ls);
    lemma_optional_line_contains(se, le, lp);
    lemma_optional_line_contains(sk, lk, lp);
    lemma_optional_line_contains(ss, ls, lp);
    lemma_optional_line_contains(sp, lp, lp);
}

/// The lines describing one trace entry, after its heading.
pub open spec fn entry_body(e: DESTraceEntry, f: Format, skip: Seq<Step>) -> Seq<Seq<char>> {
    match e {
        DESTraceEntry::IP { input, output } => seq![
            "  input:   "@ + formatted(input as nat, f, 16, 64),
            "  output:  "@ + formatted(output as nat, f, 16, 64),
        ],
        DESTraceEntry::FP { input, output } => seq![
            "  input:   "@ + formatted(input as nat, f, 16, 64),
            "  output:  "@ + formatted(output as nat, f, 16, 64),
        ],
        DESTraceEntry::Round(r) => {
            let steps = f_step_lines(r, f, skip);
            seq![
                "  left:      "@ + formatted(r.left as nat, f, 8, 32),
                "  right:     "@ + formatted(r.right as nat, f, 8, 32),
                "  round_key: "@ + formatted(r.round_key as nat, f, 12, 48),
            ] + if steps.len() == 0 { seq![] } else { seq!["  f-steps:"@] + steps }
        },
    }
}

/// The lines of entry `i` of `total`: a blank line, the heading with the
/// position and stage name, and the entry's body.
pub open spec fn entry_lines(i: nat, total: nat, e: DESTraceEntry, f: Format, skip: Seq<Step>) -> Seq<Seq<char>> {
    seq![
        Seq::<char>::empty(),
        "["@ + pad_left(decimal(i + 1), 2) + " / "@ + pad_left(decimal(total), 2) + "]  "@ + stage_label_text(e),
    ] + entry_body(e, f, skip)
}

/// The report's header followed by the lines of the first `k` entries.
pub open spec fn report_lines(
    plaintext: u64,
    key: u64,
    ciphertext: u64,
    trace: Seq<DESTraceEntry>,
    f: Format,
    skip: Seq<Step>,
    k: nat,
) -> Seq<Seq<char>>
    decreases k,
{
    if k == 0 {
        header_lines(plaintext, key, ciphertext, f)
    } else {
        report_lines(plaintext, key, ciphertext, trace, f, skip, (k - 1) as nat)
            + entry_lines((k - 1) as nat, trace.len(), trace[k - 1], f, skip)
    }
}

/// Whether `skip` holds `s`.
fn skipped(skip: &[Step], s: Step) -> (r: bool)
    ensures
        r == skip@.contains(s),
{
    let mut i: usize = 0;
    while i < skip.len()
        invariant
            i <= skip@.len(),
            forall|j: int| 0 <= j < i ==> skip@[j] != s,
        decreases skip@.len() - i,
    {
        if skip[i] == s {
            return true;
        }
        i += 1;
    }
    false
}

/// `prefix` followed by `value` in the style `f`.
fn labelled(prefix: &str, v: u64, f: &Format, hex_width: usize, bin_width: usize) -> (r: String)
    ensures
        r@ == prefix@ + formatted(v as nat, *f, hex_width as nat, bin_width as nat),
{
    let mut s = String::from_str(prefix);
    let value = format_value(v, f, hex_width, bin_width);
    s.append(value.as_str());
    s
}

/// An f-function sub-step line.
fn push_step_line(lines: &mut Vec<String>, label: &str, v: u64, f: &Format, hex_width: usize, bin_width: usize)
    requires
        label@.len() <= 12,
    ensures
        final(lines)@.map_values(|s: String| s@) == old(lines)@.map_values(|s: String| s@).push(
            step_line(label@, formatted(v as nat, *f, hex_width as nat, bin_width as nat)),
        ),
{
    proof { reveal_strlit("    "); }
    let mut s = String::from_str("    ");
    s.append(label);
    push_spaces(&mut s, 12 - label.unicode_len());
    let value = format_value(v, f, hex_width, bin_width);
    s.append(value.as_str());
    proof {
        assert(s@ =~= step_line(label@, formatted(v as nat, *f, hex_width as nat, bin_width as nat)));
    }
    let ghost before = lines@;
    lines.push(s);
    proof {
        assert(lines@.map_values(|s: String| s@) =~= before.map_values(|s: String| s@).push(s@));
    }
}

/// Appends `line` to `lines`.
fn push_line(lines: &mut Vec<String>, line: String)
    ensures
        final(lines)@.map_values(|s: String| s@) == old(lines)@.map_values(|s: String| s@).push(line@),
{
    let ghost before = lines@;
    lines.push(line);
    proof {
        assert(lines@.map_values(|s: String| s@) =~= before.map_values(|s: String| s@).push(line@));
    }
}

/// Appends the lines of the f-function sub-steps not hidden by `skip`.
fn push_f_steps(lines: &mut Vec<String>, r: &FeistelRoundState<u32, u64>, fmt: &Format, skip: &[Step])
    ensures
        final(lines)@.map_values(|s: String| s@) == old(lines)@.map_values(|s: String| s@) + {
            let steps = f_step_lines(*r, *fmt, skip@);
            if steps.len() == 0 { seq![] } else { seq!["  f-steps:"@] + steps }
        },
{
    let ghost before = lines@.map_values(|s: String| s@);
    let show_expand = !skipped(skip, Step::Expand);
    let show_key_mix = !skipped(skip, Step::KeyMix);
    let show_substitute = !skipped(skip, Step::Substitute);
    let show_permute = !skipped(skip, Step::Permute);
    let ghost steps = f_step_lines(*r, *fmt, skip@);
    if show_expand || show_key_mix || show_substitute || show_permute {
        push_line(lines, String::from_str("  f-steps:"));
        proof {
            reveal_strlit("expand");
            reveal_strlit("key_mix");
            reveal_strlit("substitute");
            reveal_strlit("permute");
        }
        if show_expand {
            push_step_line(lines, "expand", r.f_trace.after_expand, fmt, 12, 48);
        }
        if show_key_mix {
            push_step_line(lines, "key_mix", r.f_trace.after_key_mix, fmt, 12, 48);
        }
        if show_substitute {
            push_step_line(lines, "substitute", r.f_trace.after_substitute as u64, fmt, 8, 32);
        }
        if show_permute {
            push_step_line(lines, "permute", r.f_trace.after_permute as u64, fmt, 8, 32);
        }
        proof {
            assert(lines@.map_values(|s: String| s@) =~= before + seq!["  f-steps:"@] + steps);
        }
    } else {
        proof {
            assert(steps =~= Seq::<Seq<char>>::empty());
            assert(lines@.map_values(|s: String| s@) =~= before + Seq::<Seq<char>>::empty());
        }
    }
}

/// Appends the lines describing `entry`, after its heading.
fn push_entry_body(lines: &mut Vec<String>, entry: &DESTraceEntry, fmt: &Format, skip: &[Step])
    ensures
        final(lines)@.map_values(|s: String| s@) == old(lines)@.map_values(|s: String| s@) + entry_body(*entry, *fmt, skip@),
{
    let ghost before = lines@.map_values(|s: String| s@);
    match entry {
        DESTraceEntry::IP { input, output } => {
            push_line(lines, labelled("  input:   ", *input, fmt, 16, 64));
            push_line(lines, labelled("  output:  ", *output, fmt, 16, 64));
            proof {
                assert(lines@.map_values(|s: String| s@) =~= before + entry_body(*entry, *fmt, skip@));
            }
        },
        DESTraceEntry::FP { input, output } => {
            push_line(lines, labelled("  input:   ", *input, fmt, 16, 64));
            push_line(lines, labelled("  output:  ", *output, fmt, 16, 64));
            proof {
                assert(lines@.map_values(|s: String| s@) =~= before + entry_body(*entry, *fmt, skip@));
            }
        },
        DESTraceEntry::Round(r) => {
            push_line(lines, labelled("  left:      ", r.left as u64, fmt, 8, 32));
            push_line(lines, labelled("  right:     ", r.right as u64, fmt, 8, 32));
            push_line(lines, labelled("  round_key: ", r.round_key, fmt, 12, 48));
            push_f_steps(lines, r, fmt, skip);
            proof {
                assert(lines@.map_values(|s: String| s@) =~= before + entry_body(*entry, *fmt, skip@));
            }
        },
    }
}

/// Appends the lines of entry `i` of `total`.
fn push_entry_lines(lines: &mut Vec<String>, i: usize, total: usize, entry: &DESTraceEntry, fmt: &Format, skip: &[Step])
    requires
        i < total,
        countable(*entry),
    ensures
        final(lines)@.map_values(|s: String| s@) == old(lines)@.map_values(|s: String| s@)
            + entry_lines(i as nat, total as nat, *entry, *fmt, skip@),
{
    let ghost before = lines@.map_values(|s: String| s@);
    push_line(lines, String::new());
    let mut heading = String::from_str("[");
    push_padded_decimal(&mut heading, (i + 1) as u64, 2);
    heading.append(" / ");
    push_padded_decimal(&mut heading, total as u64, 2);
    heading.append("]  ");
    let label = stage_label(entry);
    heading.append(label.as_str());
    push_line(lines, heading);
    push_entry_body(lines, entry, fmt, skip);
    proof {
        assert(lines@.map_values(|s: String| s@) =~= before + entry_lines(i as nat, total as nat, *entry, *fmt, skip@));
    }
}

/// The lines of a report on one encryption: the header with plaintext, key
/// and ciphertext, then for each trace entry a blank line, a heading and
/// its values, leaving out the f-function sub-steps named in `skip`.
pub fn render_trace(
    plaintext: u64,
    key: u64,
    ciphertext: u64,
    trace: &[DESTraceEntry],
    fmt: &Format,
    skip: &[Step],
) -> (r: Vec<String>)
    requires
        forall|i: int| 0 <= i < trace@.len() ==> #[trigger] countable(trace@[i]),
    ensures
        r@.map_values(|s: String| s@) == report_lines(plaintext, key, ciphertext, trace@, *fmt, skip@, trace@.len()),
{
    let mut lines: Vec<String> = Vec::new();
    push_line(&mut lines, String::from_str("=== DES Trace ==="));
    push_line(&mut lines, labelled("Plaintext:  ", plaintext, fmt, 16, 64));
    push_line(&mut lines, labelled("Key:        ", key, fmt, 16, 64));
    push_line(&mut lines, labelled("Ciphertext: ", ciphertext, fmt, 16, 64));
    proof {
        assert(lines@.map_values(|s: String| s@) =~= header_lines(plaintext, key, ciphertext, *fmt));
    }
    let total = trace.len();
    let mut i: usize = 0;
    while i < total
        invariant
            total == trace@.len(),
            i <= total,
            forall|j: int| 0 <= j < trace@.len() ==> #[trigger] countable(trace@[j]),
            lines@.map_values(|s: String| s@) == report_lines(plaintext, key, ciphertext, trace@, *fmt, skip@, i as nat),
        decreases total - i,
    {
        assert(countable(trace@[i as int]));
        push_entry_lines(&mut lines, i, total, &trace[i], fmt, skip);
        i += 1;
    }
    lines
}

} // verus!
