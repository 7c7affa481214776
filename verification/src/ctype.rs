//! `<ctype.h>`: single-byte classification and case conversion (C locale).
//!
//! Every function takes an `int` that should be `EOF` or an `unsigned char`
//! value; only `0..=255` can be a member of a class.

use vstd::prelude::*;

verus! {

pub open spec fn is_upper_byte(b: u8) -> bool {
    0x41 <= b <= 0x5a
}

pub open spec fn is_lower_byte(b: u8) -> bool {
    0x61 <= b <= 0x7a
}

pub open spec fn is_alpha_byte(b: u8) -> bool {
    is_upper_byte(b) || is_lower_byte(b)
}

pub open spec fn is_digit_byte(b: u8) -> bool {
    0x30 <= b <= 0x39
}

pub open spec fn is_alnum_byte(b: u8) -> bool {
    is_alpha_byte(b) || is_digit_byte(b)
}

/// Space, tab, newline, carriage return, vertical tab and form feed.
pub open spec fn is_space_byte(b: u8) -> bool {
    b == 0x20 || b == 0x09 || b == 0x0a || b == 0x0d || b == 0x0b || b == 0x0c
}

pub open spec fn is_xdigit_byte(b: u8) -> bool {
    is_digit_byte(b) || 0x41 <= b <= 0x46 || 0x61 <= b <= 0x66
}

pub open spec fn is_cntrl_byte(b: u8) -> bool {
    b <= 0x1f || b == 0x7f
}

pub open spec fn is_graph_byte(b: u8) -> bool {
    0x21 <= b <= 0x7e
}

pub open spec fn is_print_byte(b: u8) -> bool {
    0x20 <= b <= 0x7e
}

pub open spec fn is_punct_byte(b: u8) -> bool {
    is_graph_byte(b) && !is_alnum_byte(b)
}

pub open spec fn is_blank_byte(b: u8) -> bool {
    b == 0x20 || b == 0x09
}

/// The C truth value of `p` for the byte `c` stands for (0 outside `0..=255`).
pub open spec fn class_result(c: i32, p: spec_fn(u8) -> bool) -> i32 {
    if 0 <= c <= 255 && p(c as u8) {
        1
    } else {
        0
    }
}

/// The byte an `int` argument stands for, when it lies in `0..=255`.
pub fn as_byte(c: i32) -> (r: Option<u8>)
    ensures
        r == (if 0 <= c <= 255 { Some(c as u8) } else { None::<u8> }),
{
    if 0 <= c && c <= 255 {
        Some(c as u8)
    } else {
        None
    }
}

pub fn isalpha(c: i32) -> (r: i32)
    ensures
        r == class_result(c, |b: u8| is_alpha_byte(b)),
{
    match as_byte(c) {
        Some(b) => if (0x41 <= b && b <= 0x5a) || (0x61 <= b && b <= 0x7a) { 1 } else { 0 },
        None => 0,
    }
}

pub fn isdigit(c: i32) -> (r: i32)
    ensures
        r == class_result(c, |b: u8| is_digit_byte(b)),
{
    match as_byte(c) {
        Some(b) => if 0x30 <= b && b <= 0x39 { 1 } else { 0 },
        None => 0,
    }
}

pub fn isalnum(c: i32) -> (r: i32)
    ensures
        r == class_result(c, |b: u8| is_alnum_byte(b)),
{
    if isalpha(c) != 0 || isdigit(c) != 0 {
        1
    } else {
        0
    }
}

pub fn isspace(c: i32) -> (r: i32)
    ensures
        r == class_result(c, |b: u8| is_space_byte(b)),
{
    match as_byte(c) {
        Some(b) => if b == 0x20 || b == 0x09 || b == 0x0a || b == 0x0d || b == 0x0b || b == 0x0c {
            1
        } else {
            0
        },
        None => 0,
    }
}

pub fn isupper(c: i32) -> (r: i32)
    ensures
        r == class_result(c, |b: u8| is_upper_byte(b)),
{
    match as_byte(c) {
        Some(b) => if 0x41 <= b && b <= 0x5a { 1 } else { 0 },
        None => 0,
    }
}

pub fn islower(c: i32) -> (r: i32)
    ensures
        r == class_result(c, |b: u8| is_lower_byte(b)),
{
    match as_byte(c) {
        Some(b) => if 0x61 <= b && b <= 0x7a { 1 } else { 0 },
        None => 0,
    }
}

pub fn isxdigit(c: i32) -> (r: i32)
    ensures
        r == class_result(c, |b: u8| is_xdigit_byte(b)),
{
    match as_byte(c) {
        Some(b) => if (0x30 <= b && b <= 0x39) || (0x41 <= b && b <= 0x46) || (0x61 <= b && b
            <= 0x66) {
            1
        } else {
            0
        },
        None => 0,
    }
}

pub fn iscntrl(c: i32) -> (r: i32)
    ensures
        r == class_result(c, |b: u8| is_cntrl_byte(b)),
{
    match as_byte(c) {
        Some(b) => if b <= 0x1f || b == 0x7f { 1 } else { 0 },
        None => 0,
    }
}

pub fn isgraph(c: i32) -> (r: i32)
    ensures
        r == class_result(c, |b: u8| is_graph_byte(b)),
{
    match as_byte(c) {
        Some(b) => if 0x21 <= b && b <= 0x7e { 1 } else { 0 },
        None => 0,
    }
}

pub fn isprint(c: i32) -> (r: i32)
    ensures
        r == class_result(c, |b: u8| is_print_byte(b)),
{
    match as_byte(c) {
        Some(b) => if 0x20 <= b && b <= 0x7e { 1 } else { 0 },
        None => 0,
    }
}

pub fn ispunct(c: i32) -> (r: i32)
    ensures
        r == class_result(c, |b: u8| is_punct_byte(b)),
{
    if isgraph(c) != 0 && isalnum(c) == 0 {
        1
    } else {
        0
    }
}

pub fn isblank(c: i32) -> (r: i32)
    ensures
        r == class_result(c, |b: u8| is_blank_byte(b)),
{
    match as_byte(c) {
        Some(b) => if b == 0x20 || b == 0x09 { 1 } else { 0 },
        None => 0,
    }
}

/// `isascii`: whether `c` lies in `0..=127`; defined for every `int`.
pub fn isascii(c: i32) -> (r: i32)
    ensures
        r == (if 0 <= c <= 127 { 1i32 } else { 0i32 }),
{
    let masked = c & !0x7f;
    assert(masked == 0 <==> 0 <= c <= 127) by (bit_vector)
        requires
            masked == c & !0x7f,
    ;
    if masked == 0 {
        1
    } else {
        0
    }
}

/// `toascii`: keeps the low seven bits, so the result is `c` modulo 128.
pub fn toascii(c: i32) -> (r: i32)
    ensures
        r == c % 128,
        0 <= r <= 127,
{
    let r = c & 0x7f;
    assert(r == c % 128) by (bit_vector)
        requires
            r == c & 0x7f,
    ;
    r
}

/// The value `tolower` gives for `c`.
pub open spec fn lower_of(c: i32) -> i32 {
    if 0x41 <= c <= 0x5a {
        (c + 32) as i32
    } else {
        c
    }
}

/// The value `toupper` gives for `c`.
pub open spec fn upper_of(c: i32) -> i32 {
    if 0x61 <= c <= 0x7a {
        (c - 32) as i32
    } else {
        c
    }
}

/// `tolower`: an upper-case letter becomes its lower-case letter; every
/// other value comes back unchanged.
pub fn tolower(c: i32) -> (r: i32)
    ensures
        r == lower_of(c),
{
    match as_byte(c) {
        Some(b) => if 0x41 <= b && b <= 0x5a { (b + 32) as i32 } else { c },
        None => c,
    }
}

/// `toupper`: a lower-case letter becomes its upper-case letter; every
/// other value comes back unchanged.
pub fn toupper(c: i32) -> (r: i32)
    ensures
        r == upper_of(c),
{
    match as_byte(c) {
        Some(b) => if 0x61 <= b && b <= 0x7a { (b - 32) as i32 } else { c },
        None => c,
    }
}

/// Case conversion round trips: lowering an upper-cased value gives the
/// lowered value, raising a lowered one gives the raised value, and both
/// conversions are idempotent.
pub proof fn lemma_case_round_trip(c: i32)
    ensures
        lower_of(upper_of(c)) == lower_of(c),
        upper_of(lower_of(c)) == upper_of(c),
        lower_of(lower_of(c)) == lower_of(c),
        upper_of(upper_of(c)) == upper_of(c),
{
}

/// The classes nest as the C standard describes: alphanumerics are the
/// letters and digits, letters are the upper- and lower-case letters,
/// punctuation and alphanumerics split the graphic characters, and the
/// printable characters are the graphic ones and space.
pub proof fn lemma_class_structure(b: u8)
    ensures
        is_alnum_byte(b) <==> is_alpha_byte(b) || is_digit_byte(b),
        is_alpha_byte(b) <==> is_upper_byte(b) || is_lower_byte(b),
        is_graph_byte(b) <==> is_alnum_byte(b) || is_punct_byte(b),
        is_print_byte(b) <==> is_graph_byte(b) || b == 0x20,
        is_digit_byte(b) ==> is_xdigit_byte(b),
        is_blank_byte(b) ==> is_space_byte(b),
        is_cntrl_byte(b) ==> !is_print_byte(b),
{
}

/// `tolower` and `toupper` are the ASCII case maps: each of the 26
/// upper-case letters `c` lowers to `c + 32` and its lower-case letter
/// raises back to `c`; every other value is left as it is.
pub proof fn lemma_ascii_case_maps(c: i32)
    ensures
        0x41 <= c <= 0x5a ==> lower_of(c) == c + 32 && upper_of((c + 32) as i32) == c,
        0x61 <= c <= 0x7a ==> upper_of(c) == c - 32 && lower_of((c - 32) as i32) == c,
        !(0x41 <= c <= 0x5a) ==> lower_of(c) == c,
        !(0x61 <= c <= 0x7a) ==> upper_of(c) == c,
{
}

} // verus!
