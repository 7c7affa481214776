//! Byte-message assembly shared by the diagnostics (`__assert_fail`,
//! `perror`): C strings, fixed texts and decimal numbers.

use vstd::prelude::*;
use crate::cstr::{c_len, c_str, has_nul};
use crate::string::strlen;

verus! {

/// The decimal digits of `n`, most significant first, without leading zeros.
pub open spec fn decimal(n: nat) -> Seq<u8>
    decreases n,
{
    if n < 10 {
        seq![(0x30 + n) as u8]
    } else {
        decimal(n / 10).push((0x30 + n % 10) as u8)
    }
}

/// The digits of a number: one or more bytes `'0'..='9'`.
pub proof fn lemma_decimal_digits(n: nat)
    ensures
        decimal(n).len() >= 1,
        forall|i: int| 0 <= i < decimal(n).len() ==> 0x30 <= #[trigger] decimal(n)[i] <= 0x39,
    decreases n,
{
    if n >= 10 {
        lemma_decimal_digits(n / 10);
    }
}

/// Renders `n` in decimal.
pub fn render_decimal(n: u32) -> (r: Vec<u8>)
    ensures
        r@ == decimal(n as nat),
{
    if n == 0 {
        let mut v: Vec<u8> = Vec::new();
        v.push(0x30);
        assert(v@ =~= decimal(0));
        return v;
    }
    let mut out: Vec<u8> = Vec::new();
    let mut m: u32 = n;
    while m > 0
        invariant
            m <= n,
            n > 0,
            decimal(n as nat) == (if m > 0 { decimal(m as nat) } else { Seq::<u8>::empty() })
                + out@,
        decreases m,
    {
        let d = (m % 10) as u8 + 0x30;
        let ghost before = out@;
        out.insert(0, d);
        assert(out@ =~= seq![d] + before);
        if m < 10 {
            assert(decimal(m as nat) =~= seq![d]);
        } else {
            assert(decimal(m as nat) =~= decimal((m / 10) as nat) + seq![d]);
        }
        m = m / 10;
        assert(decimal(n as nat) =~= (if m > 0 { decimal(m as nat) } else { Seq::<u8>::empty() })
            + out@);
    }
    out
}

/// Appends `bytes` to `out`.
pub fn append_bytes(out: &mut Vec<u8>, bytes: &[u8])
    ensures
        final(out)@ == old(out)@ + bytes@,
{
    let mut i: usize = 0;
    while i < bytes.len()
        invariant
            i <= bytes@.len(),
            out@ == old(out)@ + bytes@.take(i as int),
        decreases bytes.len() - i,
    {
        out.push(bytes[i]);
        i += 1;
        assert(out@ =~= old(out)@ + bytes@.take(i as int));
    }
    assert(bytes@.take(bytes@.len() as int) =~= bytes@);
}

/// Appends the string held in `s`, without its terminator (what `fputs`
/// writes).
pub fn append_c_str(out: &mut Vec<u8>, s: &[u8])
    requires
        has_nul(s@),
    ensures
        final(out)@ == old(out)@ + c_str(s@),
{
    let n = strlen(s);
    let mut i: usize = 0;
    while i < n
        invariant
            i <= n,
            n == c_len(s@),
            n < s@.len(),
            out@ == old(out)@ + s@.take(i as int),
        decreases n - i,
    {
        out.push(s[i]);
        i += 1;
        assert(out@ =~= old(out)@ + s@.take(i as int));
    }
}

/// `: ` (colon, space).
pub open spec fn colon_space() -> Seq<u8> {
    seq![0x3au8, 0x20u8]
}

/// `` Assertion ` ``.
pub open spec fn assertion_open() -> Seq<u8> {
    seq![0x41u8, 0x73u8, 0x73u8, 0x65u8, 0x72u8, 0x74u8, 0x69u8, 0x6fu8, 0x6eu8, 0x20u8, 0x60u8]
}

/// `` ` failed.`` and a newline.
pub open spec fn assertion_close() -> Seq<u8> {
    seq![0x60u8, 0x20u8, 0x66u8, 0x61u8, 0x69u8, 0x6cu8, 0x65u8, 0x64u8, 0x2eu8, 0x0au8]
}

/// The C string of an optional argument followed by `suffix`, or nothing.
pub open spec fn opt_part(s: Option<Seq<u8>>, suffix: Seq<u8>) -> Seq<u8> {
    match s {
        Some(t) => c_str(t) + suffix,
        None => Seq::empty(),
    }
}

pub open spec fn opt_view(s: Option<&[u8]>) -> Option<Seq<u8>> {
    match s {
        Some(t) => Some(t@),
        None => None,
    }
}

pub open spec fn opt_has_nul(s: Option<&[u8]>) -> bool {
    match s {
        Some(t) => has_nul(t@),
        None => true,
    }
}

/// What `__assert_fail` writes to standard error:
/// ``file:line: func: Assertion `expr` failed.`` and a newline, leaving out
/// the parts whose argument is NULL; the line prints as an unsigned number.
pub open spec fn assert_fail_text(
    expr: Option<Seq<u8>>,
    file: Option<Seq<u8>>,
    line: i32,
    func: Option<Seq<u8>>,
) -> Seq<u8> {
    opt_part(file, seq![0x3au8]) + decimal((line as u32) as nat) + colon_space() + opt_part(
        func,
        colon_space(),
    ) + assertion_open() + opt_part(expr, Seq::empty()) + assertion_close()
}

fn append_opt(out: &mut Vec<u8>, s: Option<&[u8]>, suffix: &[u8])
    requires
        opt_has_nul(s),
    ensures
        final(out)@ == old(out)@ + opt_part(opt_view(s), suffix@),
{
    match s {
        Some(t) => {
            append_c_str(out, t);
            append_bytes(out, suffix);
        },
        None => {},
    }
    assert(out@ =~= old(out)@ + opt_part(opt_view(s), suffix@));
}

/// The message of a failed `assert()`.
pub fn assert_fail_message(
    expr: Option<&[u8]>,
    file: Option<&[u8]>,
    line: i32,
    func: Option<&[u8]>,
) -> (r: Vec<u8>)
    requires
        opt_has_nul(expr),
        opt_has_nul(file),
        opt_has_nul(func),
    ensures
        r@ == assert_fail_text(opt_view(expr), opt_view(file), line, opt_view(func)),
{
    let colon: [u8; 1] = [0x3a];
    let sep: [u8; 2] = [0x3a, 0x20];
    let open: [u8; 11] = [0x41, 0x73, 0x73, 0x65, 0x72, 0x74, 0x69, 0x6f, 0x6e, 0x20, 0x60];
    let close: [u8; 10] = [0x60, 0x20, 0x66, 0x61, 0x69, 0x6c, 0x65, 0x64, 0x2e, 0x0a];
    let none: [u8; 0] = [];
    let mut out: Vec<u8> = Vec::new();
    append_opt(&mut out, file, &colon);
    let digits = render_decimal(line as u32);
    append_bytes(&mut out, digits.as_slice());
    append_bytes(&mut out, &sep);
    append_opt(&mut out, func, &sep);
    append_bytes(&mut out, &open);
    append_opt(&mut out, expr, &none);
    append_bytes(&mut out, &close);
    assert(out@ =~= assert_fail_text(opt_view(expr), opt_view(file), line, opt_view(func)));
    out
}

} // verus!
