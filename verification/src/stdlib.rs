//! `<stdlib.h>`: string-to-integer conversion and integer arithmetic.

use vstd::prelude::*;
use crate::arith::{wrap_i64, lemma_wrap_i64_affine, lemma_wrap_i64_id, lemma_wrap_i64_neg, wrap_to_i64};
use crate::message::{decimal, lemma_decimal_digits};
use crate::cstr::{c_len, has_nul, is_nul_scan_end, lemma_c_len};
use crate::ctype::{is_space_byte, isspace};

verus! {

/// Exit statuses.
pub const EXIT_SUCCESS: i32 = 0;
pub const EXIT_FAILURE: i32 = 1;

/// Upper bound of `rand`.
pub const RAND_MAX: i32 = 0x7fff_ffff;

/// The value of `b` as a digit in bases up to 36, or -1 when it is no digit.
pub open spec fn digit_of(b: u8) -> int {
    if 0x30 <= b <= 0x39 {
        b - 0x30
    } else if 0x61 <= b <= 0x7a {
        b - 0x61 + 10
    } else if 0x41 <= b <= 0x5a {
        b - 0x41 + 10
    } else {
        -1
    }
}

/// First index at or after `i` that does not hold white space.
pub open spec fn ws_end(s: Seq<u8>, i: int) -> int
    decreases s.len() - i,
{
    if i < 0 || i >= s.len() {
        s.len() as int
    } else if is_space_byte(s[i]) {
        ws_end(s, i + 1)
    } else {
        i
    }
}

/// End of the run of digits of base `base` that starts at `i`.
pub open spec fn digits_end(s: Seq<u8>, i: int, base: int) -> int
    decreases s.len() - i,
{
    if i < 0 || i >= s.len() {
        s.len() as int
    } else if 0 <= digit_of(s[i]) < base {
        digits_end(s, i + 1, base)
    } else {
        i
    }
}

/// The number that the digits `s[i..j]` spell in base `base`.
pub open spec fn digits_value(s: Seq<u8>, i: int, j: int, base: int) -> int
    decreases j - i,
{
    if j <= i {
        0
    } else {
        digits_value(s, i, j - 1, base) * base + digit_of(s[j - 1])
    }
}

/// Where the optional sign stands: after the leading white space.
pub open spec fn sign_pos(s: Seq<u8>) -> int {
    ws_end(s, 0)
}

pub open spec fn is_negative(s: Seq<u8>) -> bool {
    s[sign_pos(s)] == 0x2d
}

/// Index after the leading white space and the optional `+` or `-`.
pub open spec fn after_sign(s: Seq<u8>) -> int {
    if s[sign_pos(s)] == 0x2b || s[sign_pos(s)] == 0x2d {
        sign_pos(s) + 1
    } else {
        sign_pos(s)
    }
}

/// A `0x` or `0X` prefix is taken, which happens in bases 0 and 16 only.
pub open spec fn has_hex_prefix(s: Seq<u8>, base: int) -> bool {
    let p = after_sign(s);
    (base == 0 || base == 16) && s[p] == 0x30 && (s[p + 1] == 0x78 || s[p + 1] == 0x58)
}

/// The base the digits are read in: 16 after a hex prefix; in base 0, 8
/// after a leading `0` and 10 otherwise; else the base asked for.
pub open spec fn effective_base(s: Seq<u8>, base: int) -> int {
    if has_hex_prefix(s, base) {
        16
    } else if base == 0 && s[after_sign(s)] == 0x30 {
        8
    } else if base == 0 {
        10
    } else {
        base
    }
}

pub open spec fn digits_start(s: Seq<u8>, base: int) -> int {
    if has_hex_prefix(s, base) {
        after_sign(s) + 2
    } else {
        after_sign(s)
    }
}

/// Where parsing stops: the first byte that is no digit of the base.
pub open spec fn parse_end(s: Seq<u8>, base: int) -> int {
    digits_end(s, digits_start(s, base), effective_base(s, base))
}

/// The exact (unwrapped) value the text spells, sign included.
pub open spec fn parse_value(s: Seq<u8>, base: int) -> int {
    let m = digits_value(s, digits_start(s, base), parse_end(s, base), effective_base(s, base));
    if is_negative(s) {
        -m
    } else {
        m
    }
}

proof fn lemma_ws_end(s: Seq<u8>, i: int)
    requires
        0 <= i <= s.len(),
    ensures
        i <= ws_end(s, i) <= s.len(),
        ws_end(s, i) < s.len() ==> !is_space_byte(s[ws_end(s, i)]),
        forall|k: int| i <= k < ws_end(s, i) ==> is_space_byte(#[trigger] s[k]),
    decreases s.len() - i,
{
    if i < s.len() && is_space_byte(s[i]) {
        lemma_ws_end(s, i + 1);
    }
}

proof fn lemma_digits_end(s: Seq<u8>, i: int, base: int)
    requires
        0 <= i <= s.len(),
    ensures
        i <= digits_end(s, i, base) <= s.len(),
        digits_end(s, i, base) < s.len() ==> !(0 <= digit_of(s[digits_end(s, i, base)]) < base),
        forall|k: int| i <= k < digits_end(s, i, base) ==> 0 <= #[trigger] digit_of(s[k]) < base,
    decreases s.len() - i,
{
    if i < s.len() && 0 <= digit_of(s[i]) < base {
        lemma_digits_end(s, i + 1, base);
    }
}

/// A scan from `i` that stops at `j` stops where `digits_end` says.
proof fn lemma_digits_end_unique(s: Seq<u8>, i: int, j: int, base: int)
    requires
        0 <= i <= j <= s.len(),
        forall|k: int| i <= k < j ==> 0 <= #[trigger] digit_of(s[k]) < base,
        j == s.len() || !(0 <= digit_of(s[j]) < base),
    ensures
        digits_end(s, i, base) == j,
    decreases j - i,
{
    if i < j {
        lemma_digits_end_unique(s, i + 1, j, base);
    }
}

/// A digit byte is never NUL, so a digit run stays inside the C string.
proof fn lemma_digit_nonzero(b: u8)
    ensures
        digit_of(b) >= 0 ==> b != 0,
{
}

fn digit_value(ch: u8) -> (r: i32)
    ensures
        r == digit_of(ch),
{
    if 0x30 <= ch && ch <= 0x39 {
        (ch - 0x30) as i32
    } else if 0x61 <= ch && ch <= 0x7a {
        (ch - 0x61 + 10) as i32
    } else if 0x41 <= ch && ch <= 0x5a {
        (ch - 0x41 + 10) as i32
    } else {
        -1
    }
}

/// The core of `strtol`, `strtoll`, `strtoul` and the `ato*` family: skips
/// white space, takes an optional sign and, in base 0 or 16, a `0x` prefix
/// (base 0 picks 8 after a leading `0`, else 10), then reads digits until the
/// first byte that is no digit of the base. The value accumulates in `i64`
/// with two's-complement wrapping. Returns the value and the index where
/// parsing stopped.
pub fn strto_signed(nptr: &[u8], base: i32) -> (r: (i64, usize))
    requires
        has_nul(nptr@),
    ensures
        r.0 == wrap_i64(parse_value(nptr@, base as int)),
        r.1 == parse_end(nptr@, base as int),
{
    let ghost s = nptr@;
    proof {
        lemma_c_len(s);
        lemma_ws_end(s, 0);
    }
    let mut p: usize = 0;
    while isspace(nptr[p] as i32) != 0
        invariant
            p <= ws_end(s, 0),
            s == nptr@,
            ws_end(s, 0) <= c_len(s) < s.len(),
            forall|k: int| 0 <= k < ws_end(s, 0) ==> is_space_byte(#[trigger] s[k]),
            ws_end(s, 0) < s.len() ==> !is_space_byte(s[ws_end(s, 0)]),
        decreases ws_end(s, 0) - p,
    {
        p += 1;
    }
    // The terminator is not white space, so the scan ends inside the string.
    assert(p == ws_end(s, 0));
    let mut neg = false;
    if nptr[p] == 0x2b {
        p += 1;
    } else if nptr[p] == 0x2d {
        neg = true;
        p += 1;
    }
    assert(p == after_sign(s));
    assert(p <= c_len(s));
    let mut b: i32 = base;
    if (base == 0 || base == 16) && nptr[p] == 0x30 && (nptr[p + 1] == 0x78 || nptr[p + 1] == 0x58) {
        p += 2;
        b = 16;
    } else if base == 0 && nptr[p] == 0x30 {
        b = 8;
    } else if base == 0 {
        b = 10;
    }
    assert(p == digits_start(s, base as int));
    assert(b == effective_base(s, base as int));
    assert(p <= c_len(s));
    let ghost start = p as int;
    let mut acc: i64 = 0;
    loop
        invariant
            s == nptr@,
            start <= p <= c_len(s) < s.len(),
            is_nul_scan_end(s, 0, c_len(s)),
            forall|k: int| start <= k < p ==> 0 <= #[trigger] digit_of(s[k]) < b,
            acc == wrap_i64(digits_value(s, start, p as int, b as int)),
        ensures
            start <= p <= c_len(s),
            forall|k: int| start <= k < p ==> 0 <= #[trigger] digit_of(s[k]) < b,
            !(0 <= digit_of(s[p as int]) < b),
            acc == wrap_i64(digits_value(s, start, p as int, b as int)),
        decreases c_len(s) - p,
    {
        let ch = nptr[p];
        let d = digit_value(ch);
        if d < 0 || d >= b {
            break;
        }
        assert(p < c_len(s)) by {
            lemma_digit_nonzero(ch);
        }
        assert(-0x8000_0000_0000_0000_0000_0000 <= acc as i128 * b as i128
            <= 0x8000_0000_0000_0000_0000_0000) by (nonlinear_arith)
            requires
                i64::MIN <= acc <= i64::MAX,
                i32::MIN <= b <= i32::MAX,
        ;
        let prod: i128 = acc as i128 * b as i128;
        let t: i128 = prod + d as i128;
        proof {
            lemma_wrap_i64_affine(digits_value(s, start, p as int, b as int), b as int, d as int);
        }
        acc = wrap_to_i64(t);
        p += 1;
    }
    proof {
        lemma_digits_end_unique(s, start, p as int, b as int);
    }
    let ghost mag = digits_value(s, start, p as int, b as int);
    if neg {
        proof {
            lemma_wrap_i64_neg(mag);
        }
        (wrap_to_i64(0 - acc as i128), p)
    } else {
        (acc, p)
    }
}

/// `strtol`: the parsed value and the index where parsing stopped (what
/// `*endptr` is set to).
pub fn strtol(nptr: &[u8], base: i32) -> (r: (i64, usize))
    requires
        has_nul(nptr@),
    ensures
        r.0 == wrap_i64(parse_value(nptr@, base as int)),
        r.1 == parse_end(nptr@, base as int),
{
    strto_signed(nptr, base)
}

/// `strtoll`: the same conversion as `strtol` (`long long` is 64 bits).
pub fn strtoll(nptr: &[u8], base: i32) -> (r: (i64, usize))
    requires
        has_nul(nptr@),
    ensures
        r.0 == wrap_i64(parse_value(nptr@, base as int)),
        r.1 == parse_end(nptr@, base as int),
{
    strto_signed(nptr, base)
}

/// `strtoul`: the signed result reinterpreted as unsigned.
pub fn strtoul(nptr: &[u8], base: i32) -> (r: (u64, usize))
    requires
        has_nul(nptr@),
    ensures
        r.0 == (wrap_i64(parse_value(nptr@, base as int)) as i64) as u64,
        r.1 == parse_end(nptr@, base as int),
{
    let (v, end) = strto_signed(nptr, base);
    (v as u64, end)
}

/// `atoi`: decimal conversion, truncated to `int`.
pub fn atoi(nptr: &[u8]) -> (r: i32)
    requires
        has_nul(nptr@),
    ensures
        r == (wrap_i64(parse_value(nptr@, 10)) as i64) as i32,
{
    let (v, _) = strto_signed(nptr, 10);
    v as i32
}

/// `atol`: decimal conversion to `long`.
pub fn atol(nptr: &[u8]) -> (r: i64)
    requires
        has_nul(nptr@),
    ensures
        r == wrap_i64(parse_value(nptr@, 10)),
{
    let (v, _) = strto_signed(nptr, 10);
    v
}

/// `atoll`: decimal conversion to `long long`.
pub fn atoll(nptr: &[u8]) -> (r: i64)
    requires
        has_nul(nptr@),
    ensures
        r == wrap_i64(parse_value(nptr@, 10)),
{
    let (v, _) = strto_signed(nptr, 10);
    v
}

/// `abs`: the absolute value; `INT_MIN` wraps to itself.
pub fn abs(j: i32) -> (r: i32)
    ensures
        r == (if j == i32::MIN { i32::MIN as int } else if j < 0 { -j } else { j as int }),
{
    if j == i32::MIN {
        j
    } else if j < 0 {
        -j
    } else {
        j
    }
}

/// `labs`: the absolute value; `LONG_MIN` wraps to itself.
pub fn labs(j: i64) -> (r: i64)
    ensures
        r == (if j == i64::MIN { i64::MIN as int } else if j < 0 { -j } else { j as int }),
{
    if j == i64::MIN {
        j
    } else if j < 0 {
        -j
    } else {
        j
    }
}

/// The digits of `decimal(m)` at the start of `s` spell `m`.
proof fn lemma_decimal_value(s: Seq<u8>, m: nat)
    requires
        decimal(m).len() <= s.len(),
        s.take(decimal(m).len() as int) == decimal(m),
    ensures
        digits_value(s, 0, decimal(m).len() as int, 10) == m,
    decreases m,
{
    if m >= 10 {
        let l = decimal(m / 10).len() as int;
        assert(s.take(l) =~= decimal(m).take(l));
        assert(decimal(m).take(l) =~= decimal(m / 10));
        lemma_decimal_value(s, m / 10);
        assert(s[l] == decimal(m)[l]);
        assert(decimal(m)[l] == (0x30 + m % 10) as u8);
        assert(digit_of(s[l]) == m % 10);
        assert(decimal(m).len() == l + 1);
        assert(digits_value(s, 0, l + 1, 10) == digits_value(s, 0, l, 10) * 10 + digit_of(s[l]));
    } else {
        assert(s[0] == decimal(m)[0]);
        assert(digit_of(s[0]) == m);
        assert(decimal(m).len() == 1);
        assert(digits_value(s, 0, 0, 10) == 0);
        assert(digits_value(s, 0, 1, 10) == digits_value(s, 0, 0, 10) * 10 + digit_of(s[0]));
    }
}

/// Parsing back a rendered number: in base 10 the text `decimal(n)`,
/// terminated, parses to `n` and parsing stops at the terminator.
pub proof fn lemma_decimal_parses_back(n: nat)
    ensures
        parse_value(decimal(n).push(0), 10) == n,
        parse_end(decimal(n).push(0), 10) == decimal(n).len(),
{
    let s = decimal(n).push(0);
    let l = decimal(n).len() as int;
    lemma_decimal_digits(n);
    assert(s[0] == decimal(n)[0]);
    assert(ws_end(s, 0) == 0);
    assert(after_sign(s) == 0);
    assert(digits_start(s, 10) == 0);
    assert(effective_base(s, 10) == 10);
    assert forall|k: int| 0 <= k < l implies 0 <= #[trigger] digit_of(s[k]) < 10 by {
        assert(s[k] == decimal(n)[k]);
    }
    assert(s[l] == 0);
    lemma_digits_end_unique(s, 0, l, 10);
    assert(s.take(l) =~= decimal(n));
    lemma_decimal_value(s, n);
}

/// `atoi` reads back any non-negative `int` that the decimal renderer wrote.
pub proof fn lemma_atoi_reads_rendered(n: u32)
    requires
        n <= i32::MAX,
    ensures
        (wrap_i64(parse_value(decimal(n as nat).push(0), 10)) as i64) as i32 == n,
{
    lemma_decimal_parses_back(n as nat);
    lemma_wrap_i64_id(n as int);
}

proof fn lemma_ws_end_agree(s: Seq<u8>, t: Seq<u8>, i: int, q: int)
    requires
        s.len() == t.len(),
        0 <= i,
        ws_end(s, i) < q <= s.len(),
        forall|k: int| 0 <= k < q ==> s[k] == t[k],
    ensures
        ws_end(t, i) == ws_end(s, i),
    decreases s.len() - i,
{
    if i < s.len() {
        lemma_ws_end(s, i);
        assert(s[i] == t[i]);
        if is_space_byte(s[i]) {
            lemma_ws_end_agree(s, t, i + 1, q);
        }
    }
}

proof fn lemma_digits_end_agree(s: Seq<u8>, t: Seq<u8>, i: int, base: int)
    requires
        s.len() == t.len(),
        0 <= i,
        forall|k: int| i <= k < s.len() ==> s[k] == t[k],
    ensures
        digits_end(t, i, base) == digits_end(s, i, base),
    decreases s.len() - i,
{
    if i < s.len() {
        assert(s[i] == t[i]);
        lemma_digits_end_agree(s, t, i + 1, base);
    }
}

proof fn lemma_digits_value_agree(s: Seq<u8>, t: Seq<u8>, i: int, j: int, base: int)
    requires
        forall|k: int| i <= k < j ==> s[k] == t[k],
    ensures
        digits_value(t, i, j, base) == digits_value(s, i, j, base),
    decreases j - i,
{
    if j > i {
        assert(s[j - 1] == t[j - 1]);
        lemma_digits_value_agree(s, t, i, j - 1, base);
    }
}

/// In bases 0 and 16 an upper-case `0X` prefix is read exactly as `0x`:
/// writing `X` for the `x` changes neither the value nor where parsing
/// stops.
pub proof fn lemma_hex_prefix_either_case(s: Seq<u8>, base: int)
    requires
        base == 0 || base == 16,
        after_sign(s) + 1 < s.len(),
        s[after_sign(s)] == 0x30,
        s[after_sign(s) + 1] == 0x78,
    ensures
        ({
            let t = s.update(after_sign(s) + 1, 0x58);
            &&& has_hex_prefix(s, base)
            &&& parse_value(t, base) == parse_value(s, base)
            &&& parse_end(t, base) == parse_end(s, base)
        }),
{
    let p = after_sign(s);
    let t = s.update(p + 1, 0x58);
    lemma_ws_end(s, 0);
    assert(sign_pos(s) <= p);
    lemma_ws_end_agree(s, t, 0, p + 1);
    assert(sign_pos(t) == sign_pos(s));
    assert(t[sign_pos(s)] == s[sign_pos(s)]);
    assert(after_sign(t) == p);
    assert(is_negative(t) == is_negative(s));
    assert(t[p] == 0x30);
    assert(has_hex_prefix(t, base));
    assert(digits_start(t, base) == p + 2);
    assert(effective_base(t, base) == 16);
    lemma_digits_end_agree(s, t, p + 2, 16);
    lemma_digits_end(s, p + 2, 16);
    assert forall|k: int| p + 2 <= k < parse_end(s, base) implies s[k] == t[k] by {}
    lemma_digits_value_agree(s, t, p + 2, parse_end(s, base), 16);
}

/// `getenv`: the environment is not searched; every name is reported
/// absent.
pub fn getenv(name: &[u8]) -> (r: Option<&'static [u8]>)
    ensures
        r is None,
{
    None
}

} // verus!
