//! `printf` formatting: the conversions of a format applied to a list of
//! argument values. Integers (`d i u x X o`), characters (`c`), strings
//! (`s`), pointers (`p`) and `%%` are formatted, with the flags `- 0 + #`
//! and space, a field width, a precision and the length modifiers
//! `hh h l ll z j t`. Widths and precisions are capped at 4096. Any other
//! conversion, or one whose argument is missing, is written as it stands
//! in the format.

use vstd::prelude::*;
use vstd::arithmetic::div_mod::{
    lemma_add_mod_noop, lemma_fundamental_div_mod, lemma_mod_add_multiples_vanish, lemma_mod_mod,
    lemma_mod_sub_multiples_vanish, lemma_small_mod,
};
use vstd::arithmetic::power2::{lemma2_to64, lemma2_to64_rest, pow2};
use crate::message::decimal;

verus! {

/// An argument value: an integer (signed or unsigned, character or
/// pointer, as its two's-complement bits), or the bytes of a string
/// without its terminator.
pub enum FmtArg {
    Int(i64),
    Str(Vec<u8>),
}

/// Largest field width and precision taken from a format.
pub const FIELD_MAX: usize = 4096;

/// The byte at `k`, or 0 past the end of the format.
pub open spec fn at(f: Seq<u8>, k: int) -> u8 {
    if 0 <= k < f.len() {
        f[k]
    } else {
        0
    }
}

pub open spec fn is_flag(b: u8) -> bool {
    b == 0x2d || b == 0x30 || b == 0x2b || b == 0x20 || b == 0x23
}

pub open spec fn is_dec(b: u8) -> bool {
    0x30 <= b <= 0x39
}

/// End of the run of flag bytes starting at `i`.
pub open spec fn flags_end(f: Seq<u8>, i: int) -> int
    decreases f.len() - i,
{
    if i >= 0 && i < f.len() && is_flag(f[i]) {
        flags_end(f, i + 1)
    } else {
        i
    }
}

/// The flag `b` occurs in `f[i..j]`.
pub open spec fn has_flag(f: Seq<u8>, i: int, j: int, b: u8) -> bool {
    exists|k: int| i <= k < j && f[k] == b
}

/// End of the run of decimal digits starting at `i`.
pub open spec fn dec_end(f: Seq<u8>, i: int) -> int
    decreases f.len() - i,
{
    if i >= 0 && i < f.len() && is_dec(f[i]) {
        dec_end(f, i + 1)
    } else {
        i
    }
}

/// The number the digits `f[i..j]` spell, capped at `FIELD_MAX` after each
/// digit (so capped as a whole).
pub open spec fn dec_value(f: Seq<u8>, i: int, j: int) -> int
    decreases j - i,
{
    if j <= i {
        0
    } else {
        let v = dec_value(f, i, j - 1) * 10 + (f[j - 1] - 0x30);
        if v > FIELD_MAX {
            FIELD_MAX as int
        } else {
            v
        }
    }
}

/// A parsed conversion specification.
pub struct Conv {
    pub left: bool,
    pub zero: bool,
    pub plus: bool,
    pub space: bool,
    pub alt: bool,
    pub width: usize,
    pub prec: Option<usize>,
    /// Width in bits of the integer argument: 8, 16, 32 or 64.
    pub bits: u32,
    /// The conversion byte (0 when the format ends first).
    pub kind: u8,
    /// Index just past the specification.
    pub end: usize,
}

/// The length modifier at `p`: its width in bits and its byte count.
pub open spec fn length_at(f: Seq<u8>, p: int) -> (u32, int) {
    if at(f, p) == 0x68 && at(f, p + 1) == 0x68 {
        (8, 2)
    } else if at(f, p) == 0x68 {
        (16, 1)
    } else if at(f, p) == 0x6c && at(f, p + 1) == 0x6c {
        (64, 2)
    } else if at(f, p) == 0x6c || at(f, p) == 0x7a || at(f, p) == 0x6a || at(f, p) == 0x74 {
        (64, 1)
    } else {
        (32, 0)
    }
}

/// The specification that starts at `i`, just after a `%`.
pub open spec fn parse_conv(f: Seq<u8>, i: int) -> Conv {
    let fe = flags_end(f, i);
    let we = dec_end(f, fe);
    let has_prec = at(f, we) == 0x2e;
    let pe = if has_prec { dec_end(f, we + 1) } else { we };
    let (bits, llen) = length_at(f, pe);
    let k = pe + llen;
    Conv {
        left: has_flag(f, i, fe, 0x2d),
        zero: has_flag(f, i, fe, 0x30),
        plus: has_flag(f, i, fe, 0x2b),
        space: has_flag(f, i, fe, 0x20),
        alt: has_flag(f, i, fe, 0x23),
        width: dec_value(f, fe, we) as usize,
        prec: if has_prec { Some(dec_value(f, we + 1, pe) as usize) } else { None },
        bits,
        kind: at(f, k),
        end: (if k < f.len() { k + 1 } else { f.len() as int }) as usize,
    }
}

proof fn lemma_flags_end(f: Seq<u8>, i: int)
    requires
        0 <= i <= f.len(),
    ensures
        i <= flags_end(f, i) <= f.len(),
        forall|k: int| i <= k < flags_end(f, i) ==> is_flag(#[trigger] f[k]),
        flags_end(f, i) < f.len() ==> !is_flag(f[flags_end(f, i)]),
    decreases f.len() - i,
{
    if i < f.len() && is_flag(f[i]) {
        lemma_flags_end(f, i + 1);
    }
}

proof fn lemma_dec_end(f: Seq<u8>, i: int)
    requires
        0 <= i <= f.len(),
    ensures
        i <= dec_end(f, i) <= f.len(),
        forall|k: int| i <= k < dec_end(f, i) ==> is_dec(#[trigger] f[k]),
        dec_end(f, i) < f.len() ==> !is_dec(f[dec_end(f, i)]),
    decreases f.len() - i,
{
    if i < f.len() && is_dec(f[i]) {
        lemma_dec_end(f, i + 1);
    }
}

/// Reads the digits from `i` on: where they end and their capped value.
fn read_dec(f: &[u8], i: usize) -> (r: (usize, usize))
    requires
        i <= f@.len(),
    ensures
        r.0 == dec_end(f@, i as int),
        r.1 == dec_value(f@, i as int, r.0 as int),
{
    proof {
        lemma_dec_end(f@, i as int);
    }
    let mut k = i;
    let mut v: usize = 0;
    while k < f.len() && 0x30 <= f[k] && f[k] <= 0x39
        invariant
            i <= k <= dec_end(f@, i as int),
            dec_end(f@, i as int) <= f@.len(),
            forall|t: int| i <= t < dec_end(f@, i as int) ==> is_dec(#[trigger] f@[t]),
            dec_end(f@, i as int) < f@.len() ==> !is_dec(f@[dec_end(f@, i as int)]),
            v == dec_value(f@, i as int, k as int),
            v <= FIELD_MAX,
        decreases f@.len() - k,
    {
        let d = (f[k] - 0x30) as usize;
        let w = v * 10 + d;
        v = if w > FIELD_MAX { FIELD_MAX } else { w };
        k += 1;
    }
    (k, v)
}

/// The flag `b` occurs among `f[i..j]`.
fn find_flag(f: &[u8], i: usize, j: usize, b: u8) -> (r: bool)
    requires
        i <= j <= f@.len(),
    ensures
        r == has_flag(f@, i as int, j as int, b),
{
    let mut k = i;
    while k < j
        invariant
            i <= k <= j <= f@.len(),
            forall|t: int| i <= t < k ==> f@[t] != b,
        decreases j - k,
    {
        if f[k] == b {
            return true;
        }
        k += 1;
    }
    false
}

fn byte_at(f: &[u8], k: usize) -> (r: u8)
    ensures
        r == at(f@, k as int),
{
    if k < f.len() {
        f[k]
    } else {
        0
    }
}

/// Parses the specification that starts at `i`, just after a `%`.
pub fn parse(f: &[u8], i: usize) -> (r: Conv)
    requires
        i <= f@.len(),
    ensures
        r == parse_conv(f@, i as int),
        i < r.end <= f@.len() || (i == f@.len() && r.end == f@.len()),
{
    proof {
        lemma_flags_end(f@, i as int);
    }
    assert(f@.len() == f.len());
    let mut fe = i;
    while fe < f.len() && (f[fe] == 0x2d || f[fe] == 0x30 || f[fe] == 0x2b || f[fe] == 0x20 || f[fe] == 0x23)
        invariant
            i <= fe <= flags_end(f@, i as int),
            flags_end(f@, i as int) <= f@.len(),
            forall|t: int| i <= t < flags_end(f@, i as int) ==> is_flag(#[trigger] f@[t]),
            flags_end(f@, i as int) < f@.len() ==> !is_flag(f@[flags_end(f@, i as int)]),
        decreases f@.len() - fe,
    {
        fe += 1;
    }
    let (we, width) = read_dec(f, fe);
    proof {
        lemma_dec_end(f@, fe as int);
    }
    let has_prec = byte_at(f, we) == 0x2e;
    let (pe, prec) = if has_prec {
        let (pe, p) = read_dec(f, we + 1);
        (pe, Some(p))
    } else {
        (we, None)
    };
    proof {
        if has_prec {
            lemma_dec_end(f@, we + 1);
        }
    }
    let b0 = byte_at(f, pe);
    let b1 = if pe < f.len() { byte_at(f, pe + 1) } else { 0 };
    let (bits, llen): (u32, usize) = if b0 == 0x68 && b1 == 0x68 {
        (8, 2)
    } else if b0 == 0x68 {
        (16, 1)
    } else if b0 == 0x6c && b1 == 0x6c {
        (64, 2)
    } else if b0 == 0x6c || b0 == 0x7a || b0 == 0x6a || b0 == 0x74 {
        (64, 1)
    } else {
        (32, 0)
    };
    let k = pe + llen;
    let kind = byte_at(f, k);
    let end = if k < f.len() { k + 1 } else { f.len() };
    let left = find_flag(f, i, fe, 0x2d);
    let zero = find_flag(f, i, fe, 0x30);
    let plus = find_flag(f, i, fe, 0x2b);
    let space = find_flag(f, i, fe, 0x20);
    let alt = find_flag(f, i, fe, 0x23);
    let r = Conv { left, zero, plus, space, alt, width, prec, bits, kind, end };
    assert(r == parse_conv(f@, i as int));
    r
}

/// The number of values of a `bits`-wide integer.
pub open spec fn bit_range(bits: u32) -> int {
    if bits == 8 {
        0x100
    } else if bits == 16 {
        0x1_0000
    } else if bits == 32 {
        0x1_0000_0000
    } else {
        0x1_0000_0000_0000_0000
    }
}

/// The argument read as an unsigned integer of the conversion's width.
pub open spec fn unsigned_of(v: i64, bits: u32) -> int {
    (v as u64) as int % bit_range(bits)
}

/// The argument read as a signed integer of the conversion's width.
pub open spec fn signed_of(v: i64, bits: u32) -> int {
    let u = unsigned_of(v, bits);
    if u >= bit_range(bits) / 2 {
        u - bit_range(bits)
    } else {
        u
    }
}

/// The digit character for `d`.
pub open spec fn digit_char(d: int, upper: bool) -> u8 {
    if d < 10 {
        (0x30 + d) as u8
    } else if upper {
        (0x41 + d - 10) as u8
    } else {
        (0x61 + d - 10) as u8
    }
}

/// The digits of `u` in `base`, most significant first, without leading
/// zeros (one `0` for zero).
pub open spec fn digits(u: nat, base: nat, upper: bool) -> Seq<u8>
    decreases u,
{
    if u < base || base < 2 {
        seq![digit_char(u as int, upper)]
    } else {
        proof {
            assert(u / base < u) by (nonlinear_arith)
                requires
                    base >= 2,
                    u >= base,
            ;
        }
        digits(u / base, base, upper).push(digit_char((u % base) as int, upper))
    }
}

/// `n` copies of `b` (none when `n` is not positive).
pub open spec fn fill(b: u8, n: int) -> Seq<u8> {
    Seq::new(if n > 0 { n as nat } else { 0 }, |k: int| b)
}

/// The digits of `u` under a precision: at least that many digits (one by
/// default), and none for zero with precision 0.
pub open spec fn precise_digits(u: nat, base: nat, upper: bool, prec: Option<usize>) -> Seq<u8> {
    match prec {
        None => digits(u, base, upper),
        Some(p) => if u == 0 && p == 0 {
            Seq::empty()
        } else {
            fill(0x30, p - digits(u, base, upper).len()) + digits(u, base, upper)
        },
    }
}

/// `body` padded with spaces to the field width, on the right for `-`.
pub open spec fn justify(c: Conv, body: Seq<u8>) -> Seq<u8> {
    if c.left {
        body + fill(0x20, c.width - body.len())
    } else {
        fill(0x20, c.width - body.len()) + body
    }
}

/// A number field: the prefix (sign or base prefix) and the digits, padded
/// to the width with zeros between them under the `0` flag (when neither
/// `-` nor a precision is given), else with spaces.
pub open spec fn number_field(c: Conv, prefix: Seq<u8>, digs: Seq<u8>) -> Seq<u8> {
    if c.zero && !c.left && c.prec is None {
        prefix + fill(0x30, c.width - prefix.len() - digs.len()) + digs
    } else {
        justify(c, prefix + digs)
    }
}

pub open spec fn abs_of(x: int) -> nat {
    if x < 0 {
        (-x) as nat
    } else {
        x as nat
    }
}

/// What a conversion writes for an integer argument.
pub open spec fn render_int(c: Conv, v: i64) -> Seq<u8> {
    let k = c.kind;
    let u = unsigned_of(v, c.bits) as nat;
    if k == 0x64 || k == 0x69 {
        let sv = signed_of(v, c.bits);
        let prefix = if sv < 0 {
            seq![0x2du8]
        } else if c.plus {
            seq![0x2bu8]
        } else if c.space {
            seq![0x20u8]
        } else {
            Seq::empty()
        };
        number_field(c, prefix, precise_digits(abs_of(sv), 10, false, c.prec))
    } else if k == 0x75 {
        number_field(c, Seq::empty(), precise_digits(u, 10, false, c.prec))
    } else if k == 0x78 || k == 0x58 {
        let prefix = if c.alt && u != 0 { seq![0x30u8, k] } else { Seq::empty() };
        number_field(c, prefix, precise_digits(u, 16, k == 0x58, c.prec))
    } else if k == 0x6f {
        let d = precise_digits(u, 8, false, c.prec);
        let d2 = if c.alt && (d.len() == 0 || d[0] != 0x30) { seq![0x30u8] + d } else { d };
        number_field(c, Seq::empty(), d2)
    } else if k == 0x70 {
        number_field(
            c,
            seq![0x30u8, 0x78u8],
            precise_digits(unsigned_of(v, 64) as nat, 16, false, c.prec),
        )
    } else if k == 0x63 {
        justify(c, seq![unsigned_of(v, 8) as u8])
    } else {
        justify(c, Seq::empty())
    }
}

/// What a conversion writes for a string argument: `%s` writes its bytes,
/// at most the precision of them; a number conversion writes 0.
pub open spec fn render_str(c: Conv, s: Seq<u8>) -> Seq<u8> {
    if c.kind == 0x73 {
        justify(
            c,
            match c.prec {
                Some(p) => if p < s.len() { s.take(p as int) } else { s },
                None => s,
            },
        )
    } else {
        render_int(c, 0)
    }
}

pub open spec fn render(c: Conv, a: FmtArg) -> Seq<u8> {
    match a {
        FmtArg::Int(v) => render_int(c, v),
        FmtArg::Str(t) => render_str(c, t@),
    }
}

/// The conversions that take an argument.
pub open spec fn needs_arg(k: u8) -> bool {
    k == 0x64 || k == 0x69 || k == 0x75 || k == 0x78 || k == 0x58 || k == 0x6f || k == 0x63
        || k == 0x73 || k == 0x70
}

/// The output of the format from index `i` on, with the arguments from
/// index `ai` on still to be used.
pub open spec fn format_from(f: Seq<u8>, i: int, args: Seq<FmtArg>, ai: int) -> Seq<u8>
    decreases f.len() - i,
{
    if i < 0 || i >= f.len() {
        Seq::empty()
    } else if f[i] != 0x25 {
        seq![f[i]] + format_from(f, i + 1, args, ai)
    } else {
        let c = parse_conv(f, i + 1);
        if c.end <= i || c.end > f.len() {
            Seq::empty()
        } else if c.kind == 0x25 {
            seq![0x25u8] + format_from(f, c.end as int, args, ai)
        } else if needs_arg(c.kind) && 0 <= ai < args.len() {
            render(c, args[ai]) + format_from(f, c.end as int, args, ai + 1)
        } else {
            f.subrange(i, c.end as int) + format_from(f, c.end as int, args, ai)
        }
    }
}

fn digit_byte(d: u64, upper: bool) -> (r: u8)
    requires
        d < 16,
    ensures
        r == digit_char(d as int, upper),
{
    if d < 10 {
        0x30 + d as u8
    } else if upper {
        0x41 + (d - 10) as u8
    } else {
        0x61 + (d - 10) as u8
    }
}

/// The digits of `u` in `base`.
fn digits_vec(u: u64, base: u64, upper: bool) -> (r: Vec<u8>)
    requires
        2 <= base <= 16,
    ensures
        r@ == digits(u as nat, base as nat, upper),
{
    if u == 0 {
        let mut v: Vec<u8> = Vec::new();
        v.push(0x30);
        assert(v@ =~= digits(0, base as nat, upper));
        return v;
    }
    let mut out: Vec<u8> = Vec::new();
    let mut m: u64 = u;
    while m > 0
        invariant
            2 <= base <= 16,
            digits(u as nat, base as nat, upper) == (if m > 0 {
                digits(m as nat, base as nat, upper)
            } else {
                Seq::<u8>::empty()
            }) + out@,
        decreases m,
    {
        let d = digit_byte(m % base, upper);
        let ghost before = out@;
        out.insert(0, d);
        assert(out@ =~= seq![d] + before);
        if m < base {
            proof {
                vstd::arithmetic::div_mod::lemma_small_mod(m as nat, base as nat);
                vstd::arithmetic::div_mod::lemma_basic_div(m as int, base as int);
            }
            assert(digits(m as nat, base as nat, upper) =~= seq![d]);
        } else {
            assert(m / base > 0) by (nonlinear_arith)
                requires
                    m >= base,
                    base >= 2,
            ;
            assert(digits(m as nat, base as nat, upper) =~= digits((m / base) as nat, base as nat, upper)
                + seq![d]);
        }
        m = m / base;
        assert(digits(u as nat, base as nat, upper) =~= (if m > 0 {
            digits(m as nat, base as nat, upper)
        } else {
            Seq::<u8>::empty()
        }) + out@);
    }
    out
}

/// Appends `n` copies of `b`.
fn push_fill(out: &mut Vec<u8>, b: u8, n: usize)
    ensures
        final(out)@ == old(out)@ + fill(b, n as int),
{
    let mut k: usize = 0;
    while k < n
        invariant
            k <= n,
            out@ == old(out)@ + fill(b, k as int),
        decreases n - k,
    {
        out.push(b);
        k += 1;
        assert(out@ =~= old(out)@ + fill(b, k as int));
    }
}

/// `n - m`, or 0 when `m` is at least `n`.
fn gap(n: usize, m: usize) -> (r: usize)
    ensures
        r == (if n > m { n - m } else { 0 }),
{
    if n > m {
        n - m
    } else {
        0
    }
}

fn precise_digits_vec(u: u64, base: u64, upper: bool, prec: Option<usize>) -> (r: Vec<u8>)
    requires
        2 <= base <= 16,
    ensures
        r@ == precise_digits(u as nat, base as nat, upper, prec),
{
    let d = digits_vec(u, base, upper);
    match prec {
        None => d,
        Some(p) => {
            if u == 0 && p == 0 {
                let e: Vec<u8> = Vec::new();
                assert(e@ =~= precise_digits(u as nat, base as nat, upper, prec));
                e
            } else {
                let mut out: Vec<u8> = Vec::new();
                let pad = gap(p, d.len());
                push_fill(&mut out, 0x30, pad);
                append(&mut out, d.as_slice());
                assert(fill(0x30u8, pad as int) =~= fill(0x30u8, p - d@.len()));
                assert(out@ =~= precise_digits(u as nat, base as nat, upper, prec));
                out
            }
        },
    }
}

/// Appends `body` padded to the field width.
fn push_justified(out: &mut Vec<u8>, c: &Conv, body: &[u8])
    ensures
        final(out)@ == old(out)@ + justify(*c, body@),
{
    let pad = gap(c.width, body.len());
    assert(fill(0x20u8, pad as int) =~= fill(0x20u8, c.width - body@.len()));
    if c.left {
        append(out, body);
        push_fill(out, 0x20, pad);
        assert(out@ =~= old(out)@ + justify(*c, body@));
    } else {
        push_fill(out, 0x20, pad);
        append(out, body);
        assert(out@ =~= old(out)@ + justify(*c, body@));
    }
}

/// Appends `bytes`.
fn append(out: &mut Vec<u8>, bytes: &[u8])
    ensures
        final(out)@ == old(out)@ + bytes@,
{
    let mut k: usize = 0;
    while k < bytes.len()
        invariant
            k <= bytes@.len(),
            out@ == old(out)@ + bytes@.take(k as int),
        decreases bytes@.len() - k,
    {
        out.push(bytes[k]);
        k += 1;
        assert(out@ =~= old(out)@ + bytes@.take(k as int));
    }
    assert(bytes@.take(bytes@.len() as int) =~= bytes@);
}

/// Appends a number field.
fn push_number(out: &mut Vec<u8>, c: &Conv, prefix: &[u8], digs: &[u8])
    ensures
        final(out)@ == old(out)@ + number_field(*c, prefix@, digs@),
{
    if c.zero && !c.left && c.prec.is_none() {
        append(out, prefix);
        let pad = gap(gap(c.width, prefix.len()), digs.len());
        assert(fill(0x30u8, pad as int) =~= fill(0x30u8, c.width - prefix@.len() - digs@.len()));
        push_fill(out, 0x30, pad);
        append(out, digs);
        assert(out@ =~= old(out)@ + number_field(*c, prefix@, digs@));
    } else {
        let mut body: Vec<u8> = Vec::new();
        append(&mut body, prefix);
        append(&mut body, digs);
        assert(body@ =~= prefix@ + digs@);
        push_justified(out, c, body.as_slice());
    }
}

/// The argument as an unsigned integer of `bits` bits.
fn unsigned_val(v: i64, bits: u32) -> (r: u64)
    ensures
        r == unsigned_of(v, bits),
{
    let u = v as u64;
    if bits == 8 {
        u % 0x100
    } else if bits == 16 {
        u % 0x1_0000
    } else if bits == 32 {
        u % 0x1_0000_0000
    } else {
        assert(u as int % 0x1_0000_0000_0000_0000int == u);
        u
    }
}

/// The argument as a signed integer of `bits` bits: its sign and magnitude.
fn signed_val(v: i64, bits: u32) -> (r: (bool, u64))
    ensures
        r.0 == (signed_of(v, bits) < 0),
        r.1 == abs_of(signed_of(v, bits)),
{
    let u = unsigned_val(v, bits);
    let top: u64 = if bits == 8 {
        0xff
    } else if bits == 16 {
        0xffff
    } else if bits == 32 {
        0xffff_ffff
    } else {
        0xffff_ffff_ffff_ffff
    };
    assert(top + 1 == bit_range(bits));
    if u > top / 2 {
        (true, (top - u) + 1)
    } else {
        (false, u)
    }
}

/// Appends what a conversion writes for an integer argument.
fn push_int(out: &mut Vec<u8>, c: &Conv, v: i64)
    ensures
        final(out)@ == old(out)@ + render_int(*c, v),
{
    let k = c.kind;
    let none: [u8; 0] = [];
    if k == 0x64 || k == 0x69 {
        let (neg, mag) = signed_val(v, c.bits);
        let d = precise_digits_vec(mag, 10, false, c.prec);
        if neg {
            let p: [u8; 1] = [0x2d];
            push_number(out, c, &p, d.as_slice());
        } else if c.plus {
            let p: [u8; 1] = [0x2b];
            push_number(out, c, &p, d.as_slice());
        } else if c.space {
            let p: [u8; 1] = [0x20];
            push_number(out, c, &p, d.as_slice());
        } else {
            push_number(out, c, &none, d.as_slice());
        }
    } else if k == 0x75 {
        let d = precise_digits_vec(unsigned_val(v, c.bits), 10, false, c.prec);
        push_number(out, c, &none, d.as_slice());
    } else if k == 0x78 || k == 0x58 {
        let u = unsigned_val(v, c.bits);
        let d = precise_digits_vec(u, 16, k == 0x58, c.prec);
        if c.alt && u != 0 {
            let p: [u8; 2] = [0x30, k];
            push_number(out, c, &p, d.as_slice());
        } else {
            push_number(out, c, &none, d.as_slice());
        }
    } else if k == 0x6f {
        let d = precise_digits_vec(unsigned_val(v, c.bits), 8, false, c.prec);
        if c.alt && (d.len() == 0 || d[0] != 0x30) {
            let mut d2: Vec<u8> = Vec::new();
            d2.push(0x30);
            append(&mut d2, d.as_slice());
            push_number(out, c, &none, d2.as_slice());
        } else {
            push_number(out, c, &none, d.as_slice());
        }
    } else if k == 0x70 {
        let d = precise_digits_vec(unsigned_val(v, 64), 16, false, c.prec);
        let p: [u8; 2] = [0x30, 0x78];
        push_number(out, c, &p, d.as_slice());
    } else if k == 0x63 {
        let b: [u8; 1] = [unsigned_val(v, 8) as u8];
        push_justified(out, c, &b);
    } else {
        push_justified(out, c, &none);
    }
    assert(out@ =~= old(out)@ + render_int(*c, v));
}

/// Appends what a conversion writes for a string argument.
fn push_str(out: &mut Vec<u8>, c: &Conv, t: &[u8])
    ensures
        final(out)@ == old(out)@ + render_str(*c, t@),
{
    if c.kind == 0x73 {
        match c.prec {
            Some(p) => {
                if p < t.len() {
                    let part = &t[0..p];
                    assert(part@ =~= t@.take(p as int));
                    push_justified(out, c, part);
                } else {
                    push_justified(out, c, t);
                }
            },
            None => push_justified(out, c, t),
        }
    } else {
        push_int(out, c, 0);
    }
}

/// Formats `f` with the arguments `args`, as `printf` writes it.
pub fn vformat(f: &[u8], args: &[FmtArg]) -> (r: Vec<u8>)
    ensures
        r@ == format_from(f@, 0, args@, 0),
{
    let mut out: Vec<u8> = Vec::new();
    let mut i: usize = 0;
    let mut ai: usize = 0;
    assert(f@.len() == f.len());
    while i < f.len()
        invariant
            i <= f@.len(),
            f@.len() <= usize::MAX,
            ai <= args@.len(),
            out@ + format_from(f@, i as int, args@, ai as int) == format_from(f@, 0, args@, 0),
        decreases f@.len() - i,
    {
        let ghost before = out@;
        if f[i] != 0x25 {
            out.push(f[i]);
            assert(out@ =~= before + seq![f@[i as int]]);
            assert(before + format_from(f@, i as int, args@, ai as int) =~= out@ + format_from(
                f@,
                i + 1,
                args@,
                ai as int,
            ));
            i += 1;
        } else {
            let c = parse(f, i + 1);
            if c.kind == 0x25 {
                out.push(0x25);
                assert(before + format_from(f@, i as int, args@, ai as int) =~= out@ + format_from(
                    f@,
                    c.end as int,
                    args@,
                    ai as int,
                ));
            } else if (c.kind == 0x64 || c.kind == 0x69 || c.kind == 0x75 || c.kind == 0x78
                || c.kind == 0x58 || c.kind == 0x6f || c.kind == 0x63 || c.kind == 0x73
                || c.kind == 0x70) && ai < args.len() {
                match &args[ai] {
                    FmtArg::Int(v) => push_int(&mut out, &c, *v),
                    FmtArg::Str(t) => push_str(&mut out, &c, t.as_slice()),
                }
                assert(before + format_from(f@, i as int, args@, ai as int) =~= out@ + format_from(
                    f@,
                    c.end as int,
                    args@,
                    ai + 1,
                ));
                ai += 1;
            } else {
                let spec_text = &f[i..c.end];
                append(&mut out, spec_text);
                assert(before + format_from(f@, i as int, args@, ai as int) =~= out@ + format_from(
                    f@,
                    c.end as int,
                    args@,
                    ai as int,
                ));
            }
            i = c.end;
        }
    }
    assert(out@ =~= out@ + format_from(f@, i as int, args@, ai as int));
    out
}

/// The bits of `v` as an unsigned machine word: `v` modulo 2^64.
proof fn lemma_word_bits(v: i64)
    ensures
        (v as u64) as int == (v as int) % 0x1_0000_0000_0000_0000int,
{
    if v >= 0 {
        assert((v as u64) as int == v as int) by (bit_vector)
            requires
                v >= 0,
        ;
    } else {
        assert((v as u64) as int == v as int + 0x1_0000_0000_0000_0000int) by (bit_vector)
            requires
                v < 0,
        ;
    }
}

/// An integer width a length modifier selects.
pub open spec fn int_width(bits: u32) -> bool {
    bits == 8 || bits == 16 || bits == 32 || bits == 64
}

/// Reading the argument as an unsigned integer of the conversion's width is
/// reducing it modulo 2^bits.
proof fn lemma_unsigned_is_mod(v: i64, bits: u32)
    requires
        int_width(bits),
    ensures
        unsigned_of(v, bits) == (v as int) % pow2(bits as nat) as int,
        pow2(bits as nat) == bit_range(bits),
{
    lemma2_to64();
    lemma_word_bits(v);
    let x = v as int;
    let r = bit_range(bits);
    assert(0x1_0000_0000_0000_0000int % r == 0);
    lemma_mod_mod(x, r, 0x1_0000_0000_0000_0000int / r);
    assert(r * (0x1_0000_0000_0000_0000int / r) == 0x1_0000_0000_0000_0000int);
}

/// The value of a digit byte in bases up to 16 (either case), or -1.
pub open spec fn digit_value(b: u8) -> int {
    if 0x30 <= b <= 0x39 {
        b - 0x30
    } else if 0x61 <= b <= 0x66 {
        b - 0x61 + 10
    } else if 0x41 <= b <= 0x46 {
        b - 0x41 + 10
    } else {
        -1
    }
}

/// The number a string of digits spells in `base`, most significant first.
pub open spec fn text_value(t: Seq<u8>, base: int) -> int
    decreases t.len(),
{
    if t.len() == 0 {
        0
    } else {
        text_value(t.drop_last(), base) * base + digit_value(t.last())
    }
}

/// `t` is a number written in `base` the way C writes it: one or more
/// digits of the base, no leading zero, and letters in upper case exactly
/// when `upper`.
pub open spec fn canonical_digits(t: Seq<u8>, base: int, upper: bool) -> bool {
    &&& t.len() >= 1
    &&& t.len() > 1 ==> t[0] != 0x30
    &&& forall|k: int|
        0 <= k < t.len() ==> 0 <= #[trigger] digit_value(t[k]) < base && (upper ==> !(0x61
            <= t[k] <= 0x7a)) && (!upper ==> !(0x41 <= t[k] <= 0x5a))
}

proof fn lemma_digit_round(d: int, upper: bool)
    requires
        0 <= d < 16,
    ensures
        digit_value(digit_char(d, upper)) == d,
        upper ==> !(0x61 <= digit_char(d, upper) <= 0x7a),
        !upper ==> !(0x41 <= digit_char(d, upper) <= 0x5a),
        digit_char(d, upper) == 0x30 ==> d == 0,
{
}

proof fn lemma_digits_canonical(u: nat, base: nat, upper: bool)
    requires
        base == 8 || base == 10 || base == 16,
    ensures
        canonical_digits(digits(u, base, upper), base as int, upper),
        text_value(digits(u, base, upper), base as int) == u,
        digits(u, base, upper)[0] == 0x30 ==> u == 0,
    decreases u,
{
    let t = digits(u, base, upper);
    if u < base {
        lemma_digit_round(u as int, upper);
        assert(t =~= seq![digit_char(u as int, upper)]);
        assert(t.drop_last() =~= Seq::<u8>::empty());
        assert(t.last() == digit_char(u as int, upper));
        assert(text_value(t.drop_last(), base as int) == 0);
        assert(text_value(t, base as int) == text_value(t.drop_last(), base as int) * base
            + digit_value(t.last()));
    } else {
        let q = u / base;
        let r = u % base;
        assert(q < u && q >= 1) by (nonlinear_arith)
            requires
                base >= 2,
                u >= base,
                q == u / base,
        ;
        lemma_digits_canonical(q, base, upper);
        lemma_digit_round(r as int, upper);
        let d = digits(q, base, upper);
        assert(t == d.push(digit_char(r as int, upper)));
        assert(t.drop_last() =~= d);
        assert(u == q * base + r) by (nonlinear_arith)
            requires
                base > 0,
                q == u / base,
                r == u % base,
        ;
        assert(t[0] == d[0]);
        assert(t.last() == digit_char(r as int, upper));
        assert(text_value(t, base as int) == text_value(t.drop_last(), base as int) * base
            + digit_value(t.last()));
        assert(text_value(t, base as int) == q * base + r);
        assert forall|k: int| 0 <= k < t.len() implies 0 <= #[trigger] digit_value(t[k]) < base && (
        upper ==> !(0x61 <= t[k] <= 0x7a)) && (!upper ==> !(0x41 <= t[k] <= 0x5a)) by {
            if k < d.len() {
                assert(t[k] == d[k]);
            }
        }
    }
}

/// The decimal digits `digits` writes are those of `decimal`.
proof fn lemma_digits_decimal(n: nat)
    ensures
        digits(n, 10, false) == decimal(n),
    decreases n,
{
    if n >= 10 {
        lemma_digits_decimal(n / 10);
    }
}

/// A conversion with no flags, no field width and no precision.
pub open spec fn plain(c: Conv) -> bool {
    &&& !c.left && !c.zero && !c.plus && !c.space && !c.alt
    &&& c.width == 0
    &&& c.prec is None
}

/// `%d` and `%i` write the argument as a signed integer of the length
/// modifier's width: a `-` and the decimal digits of its magnitude when it
/// is negative, else its decimal digits.
pub proof fn lemma_signed_decimal(c: Conv, v: i64)
    requires
        plain(c),
        c.kind == 0x64 || c.kind == 0x69,
        int_width(c.bits),
    ensures
        ({
            let half = pow2((c.bits - 1) as nat) as int;
            let w = ((v as int) + half) % pow2(c.bits as nat) as int - half;
            render_int(c, v) == (if w < 0 {
                seq![0x2du8] + decimal((-w) as nat)
            } else {
                decimal(w as nat)
            })
        }),
{
    lemma_unsigned_is_mod(v, c.bits);
    lemma2_to64();
    lemma2_to64_rest();
    let r = bit_range(c.bits);
    let half = pow2((c.bits - 1) as nat) as int;
    if c.bits == 8 {
        assert(half == 0x80);
    } else if c.bits == 16 {
        assert(half == 0x8000);
    } else if c.bits == 32 {
        assert(half == 0x8000_0000);
    } else {
        assert(half == 0x8000_0000_0000_0000);
    }
    assert(half * 2 == r);
    let x = v as int;
    let u = x % r;
    let w = (x + half) % r - half;
    assert(w == (if u >= half { u - r } else { u })) by {
        lemma_fundamental_div_mod(x, r);
        lemma_fundamental_div_mod(x + half, r);
        lemma_mod_add_multiples_vanish(x + half, r);
        if u >= half {
            lemma_mod_sub_multiples_vanish((u + half - r) as int, r);
        }
        assert(0 <= u < r);
        assert((x + half) % r == (u + half) % r) by {
            lemma_add_mod_noop(x, half, r);
            lemma_small_mod(half as nat, r as nat);
        }
        if u < half {
            lemma_small_mod((u + half) as nat, r as nat);
        } else {
            lemma_mod_sub_multiples_vanish(u + half, r);
            lemma_small_mod((u + half - r) as nat, r as nat);
        }
    }
    assert(signed_of(v, c.bits) == w);
    lemma_digits_decimal(abs_of(w));
    let body = render_int(c, v);
    if w < 0 {
        assert(body =~= seq![0x2du8] + decimal((-w) as nat));
    } else {
        assert(body =~= decimal(w as nat));
    }
}

/// `%i` is `%d`: any specification with the one conversion writes what the
/// same specification with the other writes.
pub proof fn lemma_i_is_d(c: Conv, v: i64)
    requires
        c.kind == 0x69,
    ensures
        render_int(c, v) == render_int(Conv { kind: 0x64, ..c }, v),
        render_str(c, Seq::empty()) == render_str(Conv { kind: 0x64, ..c }, Seq::empty()),
{
}

/// `%u`, `%o`, `%x` and `%X` write the argument reduced modulo 2^bits (the
/// length modifier's width), in base 10, 8 and 16 (lower- or upper-case
/// letters) as C writes numbers.
pub proof fn lemma_unsigned_digits(c: Conv, v: i64)
    requires
        plain(c),
        c.kind == 0x75 || c.kind == 0x6f || c.kind == 0x78 || c.kind == 0x58,
        int_width(c.bits),
    ensures
        ({
            let base: int = if c.kind == 0x75 { 10 } else if c.kind == 0x6f { 8 } else { 16 };
            let t = render_int(c, v);
            &&& canonical_digits(t, base, c.kind == 0x58)
            &&& text_value(t, base) == (v as int) % pow2(c.bits as nat) as int
        }),
{
    lemma_unsigned_is_mod(v, c.bits);
    let u = unsigned_of(v, c.bits) as nat;
    let base: nat = if c.kind == 0x75 { 10 } else if c.kind == 0x6f { 8 } else { 16 };
    lemma_digits_canonical(u, base, c.kind == 0x58);
    let t = render_int(c, v);
    assert(t =~= digits(u, base, c.kind == 0x58));
}

/// `%c` writes the one byte the argument holds in its low eight bits, and
/// `%s` writes a string argument's bytes as they are.
pub proof fn lemma_char_and_string(c: Conv, v: i64, t: Seq<u8>)
    requires
        plain(c),
    ensures
        c.kind == 0x63 ==> render_int(c, v) == seq![((v as int) % 256) as u8],
        c.kind == 0x73 ==> render_str(c, t) == t,
{
    lemma_unsigned_is_mod(v, 8);
    lemma2_to64();
    if c.kind == 0x63 {
        assert(render_int(c, v) =~= seq![((v as int) % 256) as u8]);
    }
    if c.kind == 0x73 {
        assert(render_str(c, t) =~= t);
    }
}

} // verus!