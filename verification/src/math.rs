//! `<math.h>`: the exact sign operations and the classification of special
//! values, on the IEEE-754 bit patterns of their arguments (`f64::to_bits` /
//! `f32::to_bits`).

use vstd::prelude::*;

verus! {

/// `fabs`: the pattern with the sign bit cleared.
pub fn fabs_bits(x: u64) -> (r: u64)
    ensures
        r == x % 0x8000_0000_0000_0000,
{
    let r = x & !(1u64 << 63);
    assert(r == x % 0x8000_0000_0000_0000) by (bit_vector)
        requires
            r == x & !(1u64 << 63),
    ;
    r
}

/// `fabsf`: the pattern with the sign bit cleared.
pub fn fabsf_bits(x: u32) -> (r: u32)
    ensures
        r == x % 0x8000_0000,
{
    let r = x & !(1u32 << 31);
    assert(r == x % 0x8000_0000) by (bit_vector)
        requires
            r == x & !(1u32 << 31),
    ;
    r
}

/// `copysign`: the magnitude bits of `x` with the sign bit of `y`.
pub fn copysign_bits(x: u64, y: u64) -> (r: u64)
    ensures
        r % 0x8000_0000_0000_0000 == x % 0x8000_0000_0000_0000,
        r / 0x8000_0000_0000_0000 == y / 0x8000_0000_0000_0000,
{
    let sign = y & (1u64 << 63);
    let r = (x & !(1u64 << 63)) | sign;
    assert(r % 0x8000_0000_0000_0000 == x % 0x8000_0000_0000_0000 && r / 0x8000_0000_0000_0000
        == y / 0x8000_0000_0000_0000) by (bit_vector)
        requires
            sign == y & (1u64 << 63),
            r == (x & !(1u64 << 63)) | sign,
    ;
    r
}

/// `copysignf`: the magnitude bits of `x` with the sign bit of `y`.
pub fn copysignf_bits(x: u32, y: u32) -> (r: u32)
    ensures
        r % 0x8000_0000 == x % 0x8000_0000,
        r / 0x8000_0000 == y / 0x8000_0000,
{
    let sign = y & (1u32 << 31);
    let r = (x & !(1u32 << 31)) | sign;
    assert(r % 0x8000_0000 == x % 0x8000_0000 && r / 0x8000_0000 == y / 0x8000_0000)
        by (bit_vector)
        requires
            sign == y & (1u32 << 31),
            r == (x & !(1u32 << 31)) | sign,
    ;
    r
}

/// The exponent field of a binary64 pattern.
pub open spec fn exponent_field(x: u64) -> u64 {
    (x / 0x10_0000_0000_0000) % 0x800
}

/// The fraction field of a binary64 pattern.
pub open spec fn fraction_field(x: u64) -> u64 {
    x % 0x10_0000_0000_0000
}

/// `isnan` (`__isnan`): 1 for a NaN pattern (all exponent bits set and a
/// non-zero fraction), else 0.
pub fn isnan_bits(x: u64) -> (r: i32)
    ensures
        r == (if exponent_field(x) == 0x7ff && fraction_field(x) != 0 { 1int } else { 0int }),
{
    let exp = (x >> 52) & 0x7ff;
    let frac = x & 0xf_ffff_ffff_ffff;
    assert(exp == (x / 0x10_0000_0000_0000) % 0x800 && frac == x % 0x10_0000_0000_0000)
        by (bit_vector)
        requires
            exp == (x >> 52) & 0x7ff,
            frac == x & 0xf_ffff_ffff_ffff,
    ;
    if exp == 0x7ff && frac != 0 {
        1
    } else {
        0
    }
}

/// `__isinf`: 1 for positive infinity, -1 for negative infinity, else 0.
pub fn isinf_bits(x: u64) -> (r: i32)
    ensures
        r == (if exponent_field(x) == 0x7ff && fraction_field(x) == 0 {
            if x < 0x8000_0000_0000_0000 { 1int } else { -1int }
        } else {
            0int
        }),
{
    let exp = (x >> 52) & 0x7ff;
    let frac = x & 0xf_ffff_ffff_ffff;
    assert(exp == (x / 0x10_0000_0000_0000) % 0x800 && frac == x % 0x10_0000_0000_0000)
        by (bit_vector)
        requires
            exp == (x >> 52) & 0x7ff,
            frac == x & 0xf_ffff_ffff_ffff,
    ;
    if exp == 0x7ff && frac == 0 {
        if x < 0x8000_0000_0000_0000 {
            1
        } else {
            -1
        }
    } else {
        0
    }
}

} // verus!
