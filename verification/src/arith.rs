//! Two's-complement wrapping of mathematical integers, the semantics of the
//! plain `i64` arithmetic that the numeric parsers perform.

use vstd::prelude::*;
use vstd::arithmetic::div_mod::{
    lemma_fundamental_div_mod, lemma_mod_bound, lemma_mod_multiples_vanish, lemma_small_mod,
};

verus! {

pub open spec fn two_pow_64() -> int {
    0x1_0000_0000_0000_0000
}

pub open spec fn two_pow_63() -> int {
    0x8000_0000_0000_0000
}

/// The `i64` that `x` wraps to: the one congruent to `x` modulo 2^64.
pub open spec fn wrap_i64(x: int) -> int {
    (x + two_pow_63()) % two_pow_64() - two_pow_63()
}

pub proof fn lemma_wrap_i64_id(x: int)
    requires
        i64::MIN <= x <= i64::MAX,
    ensures
        wrap_i64(x) == x,
{
    lemma_small_mod((x + two_pow_63()) as nat, two_pow_64() as nat);
}

/// Adding a multiple of 2^64 does not change what a value wraps to.
pub proof fn lemma_wrap_i64_congruent(x: int, y: int, k: int)
    requires
        x == y + k * two_pow_64(),
    ensures
        wrap_i64(x) == wrap_i64(y),
{
    lemma_mod_multiples_vanish(k, y + two_pow_63(), two_pow_64());
    assert(x + two_pow_63() == two_pow_64() * k + (y + two_pow_63())) by (nonlinear_arith)
        requires
            x == y + k * two_pow_64(),
    ;
}

/// Wrapping moves a value by a multiple of 2^64.
pub proof fn lemma_wrap_i64_diff(x: int) -> (k: int)
    ensures
        wrap_i64(x) == x + k * two_pow_64(),
{
    lemma_fundamental_div_mod(x + two_pow_63(), two_pow_64());
    let q = (x + two_pow_63()) / two_pow_64();
    assert(wrap_i64(x) == x - two_pow_64() * q);
    assert(x - two_pow_64() * q == x + (-q) * two_pow_64()) by (nonlinear_arith);
    -q
}

/// Wrapping after every step of `acc * b + d` is wrapping once at the end.
pub proof fn lemma_wrap_i64_affine(x: int, b: int, d: int)
    ensures
        wrap_i64(wrap_i64(x) * b + d) == wrap_i64(x * b + d),
{
    let k = lemma_wrap_i64_diff(x);
    assert(wrap_i64(x) * b + d == (x * b + d) + (k * b) * two_pow_64()) by (nonlinear_arith)
        requires
            wrap_i64(x) == x + k * two_pow_64(),
    ;
    lemma_wrap_i64_congruent(wrap_i64(x) * b + d, x * b + d, k * b);
}

/// Negating a wrapped value wraps like negating the unwrapped one.
pub proof fn lemma_wrap_i64_neg(x: int)
    ensures
        wrap_i64(-wrap_i64(x)) == wrap_i64(-x),
{
    let k = lemma_wrap_i64_diff(x);
    lemma_wrap_i64_congruent(-wrap_i64(x), -x, -k);
}

/// Reduces a wide intermediate to the `i64` it wraps to.
pub fn wrap_to_i64(t: i128) -> (r: i64)
    requires
        -0x1_0000_0000_0000_0000_0000_0000 < t < 0x1_0000_0000_0000_0000_0000_0000,
    ensures
        r == wrap_i64(t as int),
{
    let big: i128 = 0x1_0000_0000_0000_0000_0000_0000;
    let u: u128 = (t + 0x8000_0000_0000_0000 + big) as u128;
    let m: u128 = u % 0x1_0000_0000_0000_0000;
    proof {
        lemma_mod_bound(u as int, two_pow_64());
        lemma_mod_multiples_vanish(0x1_0000_0000, t + two_pow_63(), two_pow_64());
        assert(u as int == two_pow_64() * 0x1_0000_0000 + (t + two_pow_63()));
    }
    (m as i128 - 0x8000_0000_0000_0000) as i64
}

} // verus!
