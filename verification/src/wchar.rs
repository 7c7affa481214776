//! `<wchar.h>`: wide-character strings (`wchar_t` is a 32-bit `int`).

use vstd::prelude::*;
use crate::cstr::{lemma_scan, scan};
use crate::errno::ENOSYS;

verus! {

pub open spec fn wide_nul_at(s: Seq<i32>) -> spec_fn(int) -> bool {
    |k: int| s[k] == 0
}

/// Length of the wide string held in `s` (its length when it holds no NUL).
pub open spec fn wide_len(s: Seq<i32>) -> int {
    scan(s.len() as int, wide_nul_at(s), 0)
}

pub open spec fn has_wide_nul(s: Seq<i32>) -> bool {
    wide_len(s) < s.len()
}

pub open spec fn min_wide_len(a: Seq<i32>, b: Seq<i32>) -> int {
    if a.len() < b.len() {
        a.len() as int
    } else {
        b.len() as int
    }
}

pub open spec fn wide_diff_at(a: Seq<i32>, b: Seq<i32>) -> spec_fn(int) -> bool {
    |k: int| a[k] != b[k] || a[k] == 0
}

/// Where `wcscmp` stops reading.
pub open spec fn wide_diff(a: Seq<i32>, b: Seq<i32>) -> int {
    scan(min_wide_len(a, b), wide_diff_at(a, b), 0)
}

/// `wcslen`: the number of wide characters before the terminator.
pub fn wcslen(s: &[i32]) -> (r: usize)
    requires
        has_wide_nul(s@),
    ensures
        r == wide_len(s@),
        s@[r as int] == 0,
{
    proof { lemma_scan(s@.len() as int, wide_nul_at(s@), 0); }
    let mut n: usize = 0;
    while s[n] != 0
        invariant
            n <= wide_len(s@) < s@.len(),
            wide_nul_at(s@)(wide_len(s@)),
            forall|j: int| 0 <= j < wide_len(s@) ==> !#[trigger] wide_nul_at(s@)(j),
        decreases wide_len(s@) - n,
    {
        assert(!wide_nul_at(s@)(n as int));
        n += 1;
    }
    assert(wide_nul_at(s@)(n as int));
    n
}

/// The wrapped difference of two wide characters.
fn wide_difference(x: i32, y: i32) -> (r: i32)
    ensures
        r == vstd::wrapping::i32_specs::wrapping_sub(x, y),
{
    x.wrapping_sub(y)
}

proof fn lemma_wide_hit(a: Seq<i32>, b: Seq<i32>, i: usize)
    requires
        i < a.len(),
        i < b.len(),
        a[i as int] != b[i as int] || a[i as int] == 0,
    ensures
        wide_diff_at(a, b)(i as int),
{
}

/// `wcscmp`: the (wrapping) difference of the first differing wide
/// characters, or 0 when the strings are equal.
pub fn wcscmp(a: &[i32], b: &[i32]) -> (r: i32)
    requires
        wide_diff(a@, b@) < a@.len(),
        wide_diff(a@, b@) < b@.len(),
    ensures
        r == vstd::wrapping::i32_specs::wrapping_sub(
            a@[wide_diff(a@, b@)],
            b@[wide_diff(a@, b@)],
        ),
{
    proof { lemma_scan(min_wide_len(a@, b@), wide_diff_at(a@, b@), 0); }
    let ghost k = wide_diff(a@, b@);
    let mut i: usize = 0;
    loop
        invariant
            i <= k,
            k == wide_diff(a@, b@),
            k < a@.len(),
            k < b@.len(),
            k < min_wide_len(a@, b@),
            wide_diff_at(a@, b@)(k),
            forall|j: int| 0 <= j < k ==> !#[trigger] wide_diff_at(a@, b@)(j),
        decreases k - i,
    {
        let x = a[i];
        let y = b[i];
        if x != y || x == 0 {
            proof { lemma_wide_hit(a@, b@, i); }
            return wide_difference(x, y);
        }
        i += 1;
    }
}

/// `wcscpy`: the wide string in `src`, terminator included, replaces the
/// start of `dest`.
pub fn wcscpy(dest: &mut [i32], src: &[i32])
    requires
        has_wide_nul(src@),
        wide_len(src@) < old(dest)@.len(),
    ensures
        final(dest)@ == src@.take(wide_len(src@) + 1) + old(dest)@.skip(wide_len(src@) + 1),
{
    proof { lemma_scan(src@.len() as int, wide_nul_at(src@), 0); }
    let ghost l = wide_len(src@);
    let mut i: usize = 0;
    while src[i] != 0
        invariant
            i <= l < src@.len(),
            l == wide_len(src@),
            l < dest@.len(),
            wide_nul_at(src@)(l),
            forall|j: int| 0 <= j < l ==> !#[trigger] wide_nul_at(src@)(j),
            dest@.len() == old(dest)@.len(),
            forall|k: int| 0 <= k < i ==> dest@[k] == src@[k],
            forall|k: int| i <= k < dest@.len() ==> dest@[k] == old(dest)@[k],
        decreases l - i,
    {
        assert(!wide_nul_at(src@)(i as int) || i == l);
        assert(i != l) by {
            if i == l {
                assert(wide_nul_at(src@)(i as int));
            }
        }
        dest[i] = src[i];
        i += 1;
    }
    assert(wide_nul_at(src@)(i as int));
    dest[i] = 0;
    assert(dest@ =~= src@.take(l + 1) + old(dest)@.skip(l + 1));
}

/// `mbrtowc`: multibyte decoding is not provided; the call always reports
/// an encoding failure, `(size_t)-1`, with `ENOSYS` as the error number.
pub fn mbrtowc(s: &[u8], n: usize) -> (r: (usize, i32))
    ensures
        r == (usize::MAX, ENOSYS),
{
    (usize::MAX, ENOSYS)
}

} // verus!
