//! `<string.h>`: memory blocks and C strings, as slices.

use vstd::prelude::*;
use vstd::utf8::{encode_utf8, is_ascii_chars, is_ascii_chars_encode_utf8};
use crate::errno::{
    EACCES, EAGAIN, EBADF, EBUSY, EEXIST, EFAULT, EINTR, EINVAL, EIO, EISDIR, EMFILE, ENOENT,
    ENOMEM, ENOSPC, ENOSYS, ENOTDIR, EPERM, EPIPE, ERANGE, ESRCH,
};
use crate::cstr::{
    byte_at, byte_find, byte_rfind, c_len, c_str, has_nul, is_nul_scan_end, lemma_byte_rfind,
    lemma_c_len, lemma_scan, lemma_scan_unique, mem_diff, mem_diff_at, min_len, str_diff,
    str_diff_at, byte_or_nul_at, chr_stop, in_c_str, scan, lemma_scan_le, lemma_prefix_match,
    lemma_chr_membership, lemma_str_diff_bound,
};

verus! {

/// `strlen`: the number of bytes before the first NUL.
pub fn strlen(s: &[u8]) -> (r: usize)
    requires
        has_nul(s@),
    ensures
        r == c_len(s@),
        r < s@.len(),
        s@[r as int] == 0,
{
    proof { lemma_c_len(s@); }
    let mut n: usize = 0;
    while s[n] != 0
        invariant
            n <= c_len(s@),
            c_len(s@) < s@.len(),
            is_nul_scan_end(s@, 0, c_len(s@)),
        decreases c_len(s@) - n,
    {
        n += 1;
    }
    n
}

/// `strnlen`: like `strlen`, but looks at no more than `maxlen` bytes.
pub fn strnlen(s: &[u8], maxlen: usize) -> (r: usize)
    requires
        has_nul(s@) || maxlen <= s@.len(),
    ensures
        r == (if c_len(s@) < maxlen { c_len(s@) } else { maxlen as int }),
{
    proof { lemma_c_len(s@); }
    let mut n: usize = 0;
    while n < maxlen && s[n] != 0
        invariant
            n <= maxlen,
            n <= c_len(s@),
            has_nul(s@) || maxlen <= s@.len(),
            is_nul_scan_end(s@, 0, c_len(s@)),
            has_nul(s@) <==> c_len(s@) < s@.len(),
        decreases maxlen - n,
    {
        n += 1;
    }
    n
}

/// `memcpy`: the first `n` bytes of `src` replace the first `n` of `dest`.
pub fn memcpy(dest: &mut [u8], src: &[u8], n: usize)
    requires
        n <= old(dest)@.len(),
        n <= src@.len(),
    ensures
        final(dest)@ == src@.take(n as int) + old(dest)@.skip(n as int),
{
    let mut i: usize = 0;
    while i < n
        invariant
            i <= n,
            n <= dest@.len(),
            n <= src@.len(),
            dest@.len() == old(dest)@.len(),
            forall|k: int| 0 <= k < i ==> dest@[k] == src@[k],
            forall|k: int| i <= k < dest@.len() ==> dest@[k] == old(dest)@[k],
        decreases n - i,
    {
        dest[i] = src[i];
        i += 1;
    }
    assert(dest@ =~= src@.take(n as int) + old(dest)@.skip(n as int));
}

/// `memmove`: copies `n` bytes from offset `src` to offset `dest` of one
/// buffer; the regions may overlap, and the result is as if the source were
/// first copied aside.
pub fn memmove(buf: &mut [u8], dest: usize, src: usize, n: usize)
    requires
        dest + n <= old(buf)@.len(),
        src + n <= old(buf)@.len(),
    ensures
        final(buf)@ == old(buf)@.take(dest as int) + old(buf)@.subrange(src as int, src + n)
            + old(buf)@.skip(dest + n),
{
    let ghost orig = buf@;
    assert(orig.len() == buf.len());
    if dest < src {
        let mut i: usize = 0;
        while i < n
            invariant
                dest < src,
                i <= n,
                dest + n <= orig.len(),
                src + n <= orig.len(),
                buf@.len() == orig.len(),
                orig.len() <= usize::MAX,
                forall|k: int| dest <= k < dest + i ==> buf@[k] == orig[k - dest + src],
                forall|k: int|
                    0 <= k < buf@.len() && !(dest <= k < dest + i) ==> buf@[k] == orig[k],
            decreases n - i,
        {
            // the byte read has not been overwritten yet: src + i > dest + (i - 1)
            buf[dest + i] = buf[src + i];
            i += 1;
        }
    } else {
        let mut i: usize = n;
        while i > 0
            invariant
                dest >= src,
                i <= n,
                dest + n <= orig.len(),
                src + n <= orig.len(),
                buf@.len() == orig.len(),
                orig.len() <= usize::MAX,
                forall|k: int| dest + i <= k < dest + n ==> buf@[k] == orig[k - dest + src],
                forall|k: int|
                    0 <= k < buf@.len() && !(dest + i <= k < dest + n) ==> buf@[k] == orig[k],
            decreases i,
        {
            i -= 1;
            buf[dest + i] = buf[src + i];
        }
    }
    assert(buf@ =~= orig.take(dest as int) + orig.subrange(src as int, src + n) + orig.skip(
        dest + n,
    ));
}

/// The difference of two bytes read as unsigned values.
pub fn byte_diff(x: u8, y: u8) -> (r: i32)
    ensures
        r == x - y,
{
    x as i32 - y as i32
}

/// A difference or terminator at `i` is a hit of the string scan.
proof fn lemma_str_stop_hit(a: Seq<u8>, b: Seq<u8>, i: usize)
    requires
        i < a.len(),
        i < b.len(),
        a[i as int] != b[i as int] || a[i as int] == 0,
    ensures
        str_diff_at(a, b)(i as int),
{
}

/// A difference at `i` is a hit of the block scan.
proof fn lemma_mem_stop_hit(a: Seq<u8>, b: Seq<u8>, i: usize)
    requires
        i < a.len(),
        i < b.len(),
        a[i as int] != b[i as int],
    ensures
        mem_diff_at(a, b)(i as int),
{
}

/// `memset`: the first `n` bytes of `dest` become the low byte of `c`.
pub fn memset(dest: &mut [u8], c: i32, n: usize)
    requires
        n <= old(dest)@.len(),
    ensures
        final(dest)@ == Seq::new(n as nat, |k: int| c as u8) + old(dest)@.skip(n as int),
{
    let b = c as u8;
    let mut i: usize = 0;
    while i < n
        invariant
            i <= n,
            n <= dest@.len(),
            dest@.len() == old(dest)@.len(),
            b == c as u8,
            forall|k: int| 0 <= k < i ==> dest@[k] == b,
            forall|k: int| i <= k < dest@.len() ==> dest@[k] == old(dest)@[k],
        decreases n - i,
    {
        dest[i] = b;
        i += 1;
    }
    assert(dest@ =~= Seq::new(n as nat, |k: int| c as u8) + old(dest)@.skip(n as int));
}

/// The sign-carrying result of comparing the first `n` bytes of `a` and `b`:
/// the difference of the first differing bytes, or 0 when they agree.
pub open spec fn mem_order(a: Seq<u8>, b: Seq<u8>, n: usize) -> int {
    if mem_diff(a, b) >= n {
        0
    } else {
        a[mem_diff(a, b)] - b[mem_diff(a, b)]
    }
}

/// The result of comparing the C strings in `a` and `b`: the difference of
/// the bytes where the comparison stops.
pub open spec fn str_order(a: Seq<u8>, b: Seq<u8>) -> int {
    a[str_diff(a, b)] - b[str_diff(a, b)]
}

/// `memcmp`: the difference of the first differing bytes among the first
/// `n`, or 0 when they agree. Reads stop at the first difference.
pub fn memcmp(a: &[u8], b: &[u8], n: usize) -> (r: i32)
    requires
        mem_diff(a@, b@) >= n || (mem_diff(a@, b@) < a@.len() && mem_diff(a@, b@) < b@.len()),
    ensures
        r == mem_order(a@, b@, n),
{
    proof { lemma_scan(min_len(a@, b@), mem_diff_at(a@, b@), 0); }
    let ghost k = mem_diff(a@, b@);
    let mut i: usize = 0;
    while i < n
        invariant
            i <= n,
            i <= k,
            k == mem_diff(a@, b@),
            k >= n || (k < a@.len() && k < b@.len()),
            k <= min_len(a@, b@),
            k < min_len(a@, b@) ==> mem_diff_at(a@, b@)(k),
            forall|j: int| 0 <= j < k ==> !#[trigger] mem_diff_at(a@, b@)(j),
        decreases n - i,
    {
        let x = a[i];
        let y = b[i];
        if x != y {
            proof { lemma_mem_stop_hit(a@, b@, i); }
            return byte_diff(x, y);
        }
        i += 1;
    }
    0
}

/// `bcmp`: the same comparison as `memcmp` (callers look only at zero or
/// non-zero).
pub fn bcmp(a: &[u8], b: &[u8], n: usize) -> (r: i32)
    requires
        mem_diff(a@, b@) >= n || (mem_diff(a@, b@) < a@.len() && mem_diff(a@, b@) < b@.len()),
    ensures
        r == mem_order(a@, b@, n),
{
    memcmp(a, b, n)
}

/// `memchr`: index of the first byte among the first `n` equal to the low
/// byte of `c`.
pub fn memchr(s: &[u8], c: i32, n: usize) -> (r: Option<usize>)
    requires
        n <= s@.len() || byte_find(s@, c as u8) < s@.len(),
    ensures
        r == (if byte_find(s@, c as u8) < n {
            Some(byte_find(s@, c as u8) as usize)
        } else {
            None::<usize>
        }),
{
    let b = c as u8;
    proof { lemma_scan(s@.len() as int, byte_at(s@, b), 0); }
    let ghost k = byte_find(s@, b);
    let mut i: usize = 0;
    while i < n
        invariant
            i <= n,
            i <= k,
            k == byte_find(s@, b),
            n <= s@.len() || k < s@.len(),
            k <= s@.len(),
            k < s@.len() ==> byte_at(s@, b)(k),
            b == c as u8,
            forall|j: int| 0 <= j < k ==> !#[trigger] byte_at(s@, b)(j),
        decreases n - i,
    {
        if s[i] == b {
            assert(byte_at(s@, b)(i as int));
            return Some(i);
        }
        i += 1;
    }
    None
}

/// `memrchr`: index of the last byte among the first `n` equal to the low
/// byte of `c`.
pub fn memrchr(s: &[u8], c: i32, n: usize) -> (r: Option<usize>)
    requires
        n <= s@.len(),
    ensures
        r == (if byte_rfind(s@, c as u8, n as int) >= 0 {
            Some(byte_rfind(s@, c as u8, n as int) as usize)
        } else {
            None::<usize>
        }),
{
    let b = c as u8;
    proof { lemma_byte_rfind(s@, b, n as int); }
    let ghost k = byte_rfind(s@, b, n as int);
    let mut i: usize = n;
    while i > 0
        invariant
            i <= n <= s@.len(),
            k < i,
            k == byte_rfind(s@, b, n as int),
            k >= 0 ==> s@[k] == b,
            b == c as u8,
            forall|j: int| k < j < n ==> s@[j] != b,
        decreases i,
    {
        i -= 1;
        if s[i] == b {
            return Some(i);
        }
    }
    None
}

/// `strcmp`: the difference of the first differing bytes, read as unsigned,
/// or 0 when the strings are equal.
pub fn strcmp(a: &[u8], b: &[u8]) -> (r: i32)
    requires
        str_diff(a@, b@) < a@.len(),
        str_diff(a@, b@) < b@.len(),
    ensures
        r == str_order(a@, b@),
{
    proof { lemma_scan(min_len(a@, b@), str_diff_at(a@, b@), 0); }
    let ghost k = str_diff(a@, b@);
    let mut i: usize = 0;
    loop
        invariant
            i <= k,
            k == str_diff(a@, b@),
            k < a@.len(),
            k < b@.len(),
            k < min_len(a@, b@),
            str_diff_at(a@, b@)(k),
            forall|j: int| 0 <= j < k ==> !#[trigger] str_diff_at(a@, b@)(j),
        decreases k - i,
    {
        let x = a[i];
        let y = b[i];
        if x != y || x == 0 {
            proof { lemma_str_stop_hit(a@, b@, i); }
            return byte_diff(x, y);
        }
        i += 1;
    }
}

/// `strncmp`: `strcmp` limited to the first `n` bytes.
pub fn strncmp(a: &[u8], b: &[u8], n: usize) -> (r: i32)
    requires
        str_diff(a@, b@) >= n || (str_diff(a@, b@) < a@.len() && str_diff(a@, b@) < b@.len()),
    ensures
        r == (if str_diff(a@, b@) >= n {
            0
        } else {
            a@[str_diff(a@, b@)] - b@[str_diff(a@, b@)]
        }),
{
    proof { lemma_scan(min_len(a@, b@), str_diff_at(a@, b@), 0); }
    let ghost k = str_diff(a@, b@);
    let mut i: usize = 0;
    while i < n
        invariant
            i <= n,
            i <= k,
            k == str_diff(a@, b@),
            k >= n || (k < a@.len() && k < b@.len()),
            k <= min_len(a@, b@),
            k < min_len(a@, b@) ==> str_diff_at(a@, b@)(k),
            forall|j: int| 0 <= j < k ==> !#[trigger] str_diff_at(a@, b@)(j),
        decreases n - i,
    {
        let x = a[i];
        let y = b[i];
        if x != y || x == 0 {
            proof { lemma_str_stop_hit(a@, b@, i); }
            return byte_diff(x, y);
        }
        i += 1;
    }
    0
}

/// `strcpy`: the string in `src`, terminator included, replaces the start of
/// `dest`.
pub fn strcpy(dest: &mut [u8], src: &[u8])
    requires
        has_nul(src@),
        c_len(src@) < old(dest)@.len(),
    ensures
        final(dest)@ == src@.take(c_len(src@) + 1) + old(dest)@.skip(c_len(src@) + 1),
{
    proof { lemma_c_len(src@); }
    let ghost l = c_len(src@);
    let mut i: usize = 0;
    while src[i] != 0
        invariant
            i <= l,
            l == c_len(src@),
            l < src@.len(),
            l < dest@.len(),
            is_nul_scan_end(src@, 0, l),
            dest@.len() == old(dest)@.len(),
            forall|k: int| 0 <= k < i ==> dest@[k] == src@[k],
            forall|k: int| i <= k < dest@.len() ==> dest@[k] == old(dest)@[k],
        decreases l - i,
    {
        dest[i] = src[i];
        i += 1;
    }
    dest[i] = 0;
    assert(dest@ =~= src@.take(l + 1) + old(dest)@.skip(l + 1));
}

/// `strncpy`: copies at most `n` bytes of the string in `src`, then pads
/// with NULs up to `n` bytes (so no terminator is written when the string
/// is `n` bytes or longer).
pub fn strncpy(dest: &mut [u8], src: &[u8], n: usize)
    requires
        n <= old(dest)@.len(),
        has_nul(src@) || n <= src@.len(),
    ensures
        ({
            let m = if c_len(src@) < n { c_len(src@) } else { n as int };
            final(dest)@ == src@.take(m) + Seq::new((n - m) as nat, |k: int| 0u8) + old(
                dest,
            )@.skip(n as int)
        }),
{
    proof { lemma_c_len(src@); }
    let ghost m = if c_len(src@) < n { c_len(src@) } else { n as int };
    let mut i: usize = 0;
    while i < n && src[i] != 0
        invariant
            i <= n,
            i <= c_len(src@),
            n <= dest@.len(),
            has_nul(src@) || n <= src@.len(),
            is_nul_scan_end(src@, 0, c_len(src@)),
            has_nul(src@) <==> c_len(src@) < src@.len(),
            dest@.len() == old(dest)@.len(),
            forall|k: int| 0 <= k < i ==> dest@[k] == src@[k],
            forall|k: int| i <= k < dest@.len() ==> dest@[k] == old(dest)@[k],
        decreases n - i,
    {
        dest[i] = src[i];
        i += 1;
    }
    assert(i == m);
    while i < n
        invariant
            0 <= m <= i <= n,
            n <= dest@.len(),
            dest@.len() == old(dest)@.len(),
            forall|k: int| 0 <= k < m ==> dest@[k] == src@[k],
            m <= src@.len(),
            forall|k: int| m <= k < i ==> #[trigger] dest@[k] == 0u8,
            forall|k: int| i <= k < dest@.len() ==> dest@[k] == old(dest)@[k],
        decreases n - i,
    {
        dest[i] = 0;
        i += 1;
    }
    assert(dest@ =~= src@.take(m) + Seq::new((n - m) as nat, |k: int| 0u8) + old(dest)@.skip(
        n as int,
    ));
}

/// `strcat`: appends the string in `src`, terminator included, after the
/// string in `dest`.
pub fn strcat(dest: &mut [u8], src: &[u8])
    requires
        has_nul(old(dest)@),
        has_nul(src@),
        c_len(old(dest)@) + c_len(src@) < old(dest)@.len(),
    ensures
        final(dest)@ == old(dest)@.take(c_len(old(dest)@)) + src@.take(c_len(src@) + 1) + old(
            dest,
        )@.skip(c_len(old(dest)@) + c_len(src@) + 1),
{
    let start = strlen(dest);
    assert(dest@.len() == dest.len());
    proof { lemma_c_len(src@); }
    let ghost l = c_len(src@);
    let mut i: usize = 0;
    while src[i] != 0
        invariant
            i <= l,
            l == c_len(src@),
            l < src@.len(),
            start == c_len(old(dest)@),
            start + l < dest@.len(),
            dest@.len() <= usize::MAX,
            is_nul_scan_end(src@, 0, l),
            dest@.len() == old(dest)@.len(),
            forall|k: int| 0 <= k < start ==> dest@[k] == old(dest)@[k],
            forall|k: int| start <= k < start + i ==> dest@[k] == src@[k - start],
            forall|k: int| start + i <= k < dest@.len() ==> dest@[k] == old(dest)@[k],
        decreases l - i,
    {
        dest[start + i] = src[i];
        i += 1;
    }
    dest[start + i] = 0;
    assert(dest@ =~= old(dest)@.take(start as int) + src@.take(l + 1) + old(dest)@.skip(
        start + l + 1,
    ));
}

/// `strncat`: appends at most `n` bytes of the string in `src` after the
/// string in `dest`, then a terminator.
pub fn strncat(dest: &mut [u8], src: &[u8], n: usize)
    requires
        has_nul(old(dest)@),
        has_nul(src@) || n <= src@.len(),
        c_len(old(dest)@) + (if c_len(src@) < n { c_len(src@) } else { n as int }) < old(
            dest,
        )@.len(),
    ensures
        ({
            let m = if c_len(src@) < n { c_len(src@) } else { n as int };
            let d = c_len(old(dest)@);
            final(dest)@ == old(dest)@.take(d) + src@.take(m) + seq![0u8] + old(dest)@.skip(
                d + m + 1,
            )
        }),
{
    let start = strlen(dest);
    assert(dest@.len() == dest.len());
    proof { lemma_c_len(src@); }
    let ghost m = if c_len(src@) < n { c_len(src@) } else { n as int };
    let mut i: usize = 0;
    while i < n && src[i] != 0
        invariant
            i <= n,
            i <= c_len(src@),
            start == c_len(old(dest)@),
            start + m < dest@.len(),
            m == (if c_len(src@) < n { c_len(src@) } else { n as int }),
            has_nul(src@) || n <= src@.len(),
            is_nul_scan_end(src@, 0, c_len(src@)),
            has_nul(src@) <==> c_len(src@) < src@.len(),
            dest@.len() == old(dest)@.len(),
            forall|k: int| 0 <= k < start ==> dest@[k] == old(dest)@[k],
            dest@.len() <= usize::MAX,
            forall|k: int| start <= k < start + i ==> dest@[k] == src@[k - start],
            forall|k: int| start + i <= k < dest@.len() ==> dest@[k] == old(dest)@[k],
        decreases n - i,
    {
        dest[start + i] = src[i];
        i += 1;
    }
    assert(i == m);
    dest[start + i] = 0;
    assert(dest@ =~= old(dest)@.take(start as int) + src@.take(m) + seq![0u8] + old(dest)@.skip(
        start + m + 1,
    ));
}

/// `strchr`: index of the first byte equal to the low byte of `c`, looking
/// through the terminator (so searching for NUL finds the terminator).
pub fn strchr(s: &[u8], c: i32) -> (r: Option<usize>)
    requires
        chr_stop(s@, c as u8) < s@.len(),
    ensures
        r == (if s@[chr_stop(s@, c as u8)] == c as u8 {
            Some(chr_stop(s@, c as u8) as usize)
        } else {
            None::<usize>
        }),
{
    let t = c as u8;
    proof { lemma_scan(s@.len() as int, byte_or_nul_at(s@, t), 0); }
    let ghost k = chr_stop(s@, t);
    let mut i: usize = 0;
    loop
        invariant
            i <= k < s@.len(),
            k == chr_stop(s@, t),
            t == c as u8,
            byte_or_nul_at(s@, t)(k),
            forall|j: int| 0 <= j < k ==> !#[trigger] byte_or_nul_at(s@, t)(j),
        decreases k - i,
    {
        let ch = s[i];
        if ch == t {
            assert(byte_or_nul_at(s@, t)(i as int));
            return Some(i);
        }
        if ch == 0 {
            assert(byte_or_nul_at(s@, t)(i as int));
            return None;
        }
        i += 1;
    }
}

/// `strrchr`: index of the last byte of the string equal to the low byte of
/// `c`, the terminator included.
pub fn strrchr(s: &[u8], c: i32) -> (r: Option<usize>)
    requires
        has_nul(s@),
    ensures
        r == (if byte_rfind(s@, c as u8, c_len(s@) + 1) >= 0 {
            Some(byte_rfind(s@, c as u8, c_len(s@) + 1) as usize)
        } else {
            None::<usize>
        }),
{
    let t = c as u8;
    proof { lemma_c_len(s@); }
    let ghost l = c_len(s@);
    let mut last: Option<usize> = None;
    let mut i: usize = 0;
    loop
        invariant
            i <= l < s@.len(),
            l == c_len(s@),
            t == c as u8,
            is_nul_scan_end(s@, 0, l),
            last == (if byte_rfind(s@, t, i as int) >= 0 {
                Some(byte_rfind(s@, t, i as int) as usize)
            } else {
                None::<usize>
            }),
        decreases l - i,
    {
        let ch = s[i];
        if ch == t {
            last = Some(i);
        }
        if ch == 0 {
            return last;
        }
        i += 1;
    }
}

/// The string in `nd` occurs in `h` starting at index `i`.
pub open spec fn matches_at(h: Seq<u8>, nd: Seq<u8>, i: int) -> bool {
    i + c_len(nd) <= h.len() && h.subrange(i, i + c_len(nd)) == c_str(nd)
}

pub open spec fn match_at(h: Seq<u8>, nd: Seq<u8>) -> spec_fn(int) -> bool {
    |i: int| matches_at(h, nd, i)
}

/// First start index inside the string in `h` where `nd`'s string occurs.
pub open spec fn first_match(h: Seq<u8>, nd: Seq<u8>) -> int {
    scan(c_len(h), match_at(h, nd), 0)
}

/// Whether the string in `a` starts with the `n`-byte string in `nd`.
fn prefix_equal(a: &[u8], nd: &[u8], n: usize) -> (r: bool)
    requires
        has_nul(a@),
        has_nul(nd@),
        n == c_len(nd@),
    ensures
        r == (str_diff(a@, nd@) >= n),
{
    proof {
        lemma_prefix_match(a@, nd@);
        lemma_str_diff_bound(a@, nd@);
    }
    strncmp(a, nd, n) == 0
}

/// `strstr`: index of the first occurrence of the string in `needle` within
/// the string in `haystack`; an empty needle matches at 0.
pub fn strstr(haystack: &[u8], needle: &[u8]) -> (r: Option<usize>)
    requires
        has_nul(haystack@),
        has_nul(needle@),
    ensures
        r == (if c_len(needle@) == 0 {
            Some(0usize)
        } else if first_match(haystack@, needle@) < c_len(haystack@) {
            Some(first_match(haystack@, needle@) as usize)
        } else {
            None::<usize>
        }),
{
    proof {
        lemma_c_len(haystack@);
        lemma_c_len(needle@);
    }
    if needle[0] == 0 {
        return Some(0);
    }
    let nlen = strlen(needle);
    let ghost hl = c_len(haystack@);
    let mut i: usize = 0;
    loop
        invariant
            i <= hl < haystack@.len(),
            hl == c_len(haystack@),
            nlen == c_len(needle@),
            0 < nlen < needle@.len(),
            has_nul(needle@),
            is_nul_scan_end(haystack@, 0, hl),
            forall|j: int| 0 <= j < i ==> !#[trigger] match_at(haystack@, needle@)(j),
        decreases hl - i,
    {
        let ch = haystack[i];
        if ch == 0 {
            proof { lemma_scan_unique(hl, match_at(haystack@, needle@), 0, i as int); }
            return None;
        }
        let sub = &haystack[i..haystack.len()];
        assert(sub@ == haystack@.subrange(i as int, haystack@.len() as int));
        assert(sub@[hl - i] == 0);
        proof {
            lemma_prefix_match(sub@, needle@);
            lemma_str_diff_bound(sub@, needle@);
        }
        let found = prefix_equal(sub, needle, nlen);
        proof {
            if i + nlen <= haystack@.len() {
                assert(sub@.take(nlen as int) =~= haystack@.subrange(i as int, i + nlen));
            }
        }
        if found {
            assert(match_at(haystack@, needle@)(i as int));
            proof { lemma_scan_unique(hl, match_at(haystack@, needle@), 0, i as int); }
            return Some(i);
        }
        assert(!match_at(haystack@, needle@)(i as int));
        i += 1;
    }
}

/// The search `strstr` makes finds the needle exactly when it occurs in the
/// haystack's string, and what it finds is the first occurrence.
pub proof fn lemma_strstr_first_occurrence(h: Seq<u8>, nd: Seq<u8>)
    requires
        has_nul(h),
    ensures
        (first_match(h, nd) < c_len(h)) == (exists|i: int|
            0 <= i < c_len(h) && #[trigger] matches_at(h, nd, i)),
        first_match(h, nd) < c_len(h) ==> matches_at(h, nd, first_match(h, nd)),
        forall|j: int| 0 <= j < first_match(h, nd) && j < c_len(h) ==> !#[trigger] matches_at(h, nd, j),
{
    lemma_c_len(h);
    lemma_scan(c_len(h), match_at(h, nd), 0);
    if exists|i: int| 0 <= i < c_len(h) && #[trigger] matches_at(h, nd, i) {
        let i = choose|i: int| 0 <= i < c_len(h) && #[trigger] matches_at(h, nd, i);
        assert(match_at(h, nd)(i));
        lemma_scan_le(c_len(h), match_at(h, nd), 0, i);
    }
    assert forall|j: int| 0 <= j < first_match(h, nd) && j < c_len(h) implies !#[trigger] matches_at(h, nd, j) by {
        assert(!match_at(h, nd)(j));
    }
}

pub open spec fn span_stop_at(s: Seq<u8>, accept: Seq<u8>) -> spec_fn(int) -> bool {
    |k: int| s[k] == 0 || !in_c_str(accept, s[k])
}

pub open spec fn cspan_stop_at(s: Seq<u8>, reject: Seq<u8>) -> spec_fn(int) -> bool {
    |k: int| s[k] == 0 || in_c_str(reject, s[k])
}

/// Whether `strchr(set, ch)` finds the non-NUL byte `ch`, i.e. `ch` is in `set`.
fn in_set(set: &[u8], ch: u8) -> (r: bool)
    requires
        has_nul(set@),
        ch != 0,
    ensures
        r == in_c_str(set@, ch),
{
    proof { lemma_chr_membership(set@, ch); }
    strchr(set, ch as i32).is_some()
}

/// `strspn`: length of the leading run of bytes that occur in `accept`.
pub fn strspn(s: &[u8], accept: &[u8]) -> (r: usize)
    requires
        has_nul(s@),
        has_nul(accept@),
    ensures
        r == scan(s@.len() as int, span_stop_at(s@, accept@), 0),
        r <= c_len(s@) < s@.len(),
{
    proof {
        lemma_c_len(s@);
        assert(span_stop_at(s@, accept@)(c_len(s@)));
        lemma_scan_le(s@.len() as int, span_stop_at(s@, accept@), 0, c_len(s@));
        lemma_scan(s@.len() as int, span_stop_at(s@, accept@), 0);
    }
    let ghost k = scan(s@.len() as int, span_stop_at(s@, accept@), 0);
    let mut count: usize = 0;
    loop
        invariant
            count <= k <= c_len(s@) < s@.len(),
            k == scan(s@.len() as int, span_stop_at(s@, accept@), 0),
            span_stop_at(s@, accept@)(k),
            has_nul(accept@),
            forall|j: int| 0 <= j < k ==> !#[trigger] span_stop_at(s@, accept@)(j),
        decreases k - count,
    {
        let ch = s[count];
        if ch == 0 || !in_set(accept, ch) {
            assert(span_stop_at(s@, accept@)(count as int));
            return count;
        }
        count += 1;
    }
}

/// `strcspn`: length of the leading run of bytes that do not occur in
/// `reject`.
pub fn strcspn(s: &[u8], reject: &[u8]) -> (r: usize)
    requires
        has_nul(s@),
        has_nul(reject@),
    ensures
        r == scan(s@.len() as int, cspan_stop_at(s@, reject@), 0),
        r <= c_len(s@) < s@.len(),
{
    proof {
        lemma_c_len(s@);
        assert(cspan_stop_at(s@, reject@)(c_len(s@)));
        lemma_scan_le(s@.len() as int, cspan_stop_at(s@, reject@), 0, c_len(s@));
        lemma_scan(s@.len() as int, cspan_stop_at(s@, reject@), 0);
    }
    let ghost k = scan(s@.len() as int, cspan_stop_at(s@, reject@), 0);
    let mut count: usize = 0;
    loop
        invariant
            count <= k <= c_len(s@) < s@.len(),
            k == scan(s@.len() as int, cspan_stop_at(s@, reject@), 0),
            cspan_stop_at(s@, reject@)(k),
            has_nul(reject@),
            forall|j: int| 0 <= j < k ==> !#[trigger] cspan_stop_at(s@, reject@)(j),
        decreases k - count,
    {
        let ch = s[count];
        if ch == 0 {
            assert(cspan_stop_at(s@, reject@)(count as int));
            return count;
        }
        if in_set(reject, ch) {
            assert(cspan_stop_at(s@, reject@)(count as int));
            return count;
        }
        count += 1;
    }
}

/// `strpbrk`: index of the first byte of the string that occurs in
/// `accept`.
pub fn strpbrk(s: &[u8], accept: &[u8]) -> (r: Option<usize>)
    requires
        has_nul(s@),
        has_nul(accept@),
    ensures
        ({
            let k = scan(s@.len() as int, cspan_stop_at(s@, accept@), 0);
            r == (if s@[k] == 0 { None::<usize> } else { Some(k as usize) })
        }),
{
    let k = strcspn(s, accept);
    if s[k] == 0 {
        None
    } else {
        Some(k)
    }
}

/// `strdup`: a fresh copy of the string in `s`, terminator included.
pub fn strdup(s: &[u8]) -> (r: Vec<u8>)
    requires
        has_nul(s@),
    ensures
        r@ == s@.take(c_len(s@) + 1),
{
    let len = strlen(s);
    let mut v: Vec<u8> = Vec::new();
    let mut i: usize = 0;
    while i <= len
        invariant
            i <= len + 1,
            len < s@.len(),
            v@ == s@.take(i as int),
        decreases len + 1 - i,
    {
        v.push(s[i]);
        i += 1;
        assert(v@ =~= s@.take(i as int));
    }
    v
}

/// `strndup`: a fresh copy of at most `n` bytes of the string in `s`,
/// always terminated.
pub fn strndup(s: &[u8], n: usize) -> (r: Vec<u8>)
    requires
        has_nul(s@) || n <= s@.len(),
    ensures
        r@ == s@.take(if c_len(s@) < n { c_len(s@) } else { n as int }).push(0),
{
    let len = strnlen(s, n);
    proof { lemma_c_len(s@); }
    let mut v: Vec<u8> = Vec::new();
    let mut i: usize = 0;
    while i < len
        invariant
            i <= len,
            len <= s@.len(),
            v@ == s@.take(i as int),
        decreases len - i,
    {
        v.push(s[i]);
        i += 1;
        assert(v@ =~= s@.take(i as int));
    }
    v.push(0);
    v
}

/// The message `strerror` gives for `errnum`, terminator included.
pub open spec fn strerror_text(errnum: i32) -> Seq<char> {
    if errnum == EPERM {
        "Operation not permitted\0"@
    } else if errnum == ENOENT {
        "No such file or directory\0"@
    } else if errnum == ESRCH {
        "No such process\0"@
    } else if errnum == EINTR {
        "Interrupted system call\0"@
    } else if errnum == EIO {
        "Input/output error\0"@
    } else if errnum == EBADF {
        "Bad file descriptor\0"@
    } else if errnum == EAGAIN {
        "Resource temporarily unavailable\0"@
    } else if errnum == ENOMEM {
        "Cannot allocate memory\0"@
    } else if errnum == EACCES {
        "Permission denied\0"@
    } else if errnum == EFAULT {
        "Bad address\0"@
    } else if errnum == EBUSY {
        "Device or resource busy\0"@
    } else if errnum == EEXIST {
        "File exists\0"@
    } else if errnum == ENOTDIR {
        "Not a directory\0"@
    } else if errnum == EISDIR {
        "Is a directory\0"@
    } else if errnum == EINVAL {
        "Invalid argument\0"@
    } else if errnum == EMFILE {
        "Too many open files\0"@
    } else if errnum == ENOSPC {
        "No space left on device\0"@
    } else if errnum == EPIPE {
        "Broken pipe\0"@
    } else if errnum == ERANGE {
        "Numerical result out of range\0"@
    } else if errnum == ENOSYS {
        "Function not implemented\0"@
    } else {
        "Unknown error\0"@
    }
}

/// `strerror`: the fixed message for an error number ("Unknown error" for
/// numbers without one), as a static NUL-terminated string.
pub fn strerror(errnum: i32) -> (r: &'static str)
    ensures
        r@ == strerror_text(errnum),
{
    if errnum == EPERM {
        "Operation not permitted\0"
    } else if errnum == ENOENT {
        "No such file or directory\0"
    } else if errnum == ESRCH {
        "No such process\0"
    } else if errnum == EINTR {
        "Interrupted system call\0"
    } else if errnum == EIO {
        "Input/output error\0"
    } else if errnum == EBADF {
        "Bad file descriptor\0"
    } else if errnum == EAGAIN {
        "Resource temporarily unavailable\0"
    } else if errnum == ENOMEM {
        "Cannot allocate memory\0"
    } else if errnum == EACCES {
        "Permission denied\0"
    } else if errnum == EFAULT {
        "Bad address\0"
    } else if errnum == EBUSY {
        "Device or resource busy\0"
    } else if errnum == EEXIST {
        "File exists\0"
    } else if errnum == ENOTDIR {
        "Not a directory\0"
    } else if errnum == EISDIR {
        "Is a directory\0"
    } else if errnum == EINVAL {
        "Invalid argument\0"
    } else if errnum == EMFILE {
        "Too many open files\0"
    } else if errnum == ENOSPC {
        "No space left on device\0"
    } else if errnum == EPIPE {
        "Broken pipe\0"
    } else if errnum == ERANGE {
        "Numerical result out of range\0"
    } else if errnum == ENOSYS {
        "Function not implemented\0"
    } else {
        "Unknown error\0"
    }
}

/// `t` is a printable ASCII text followed by a single NUL.
pub open spec fn is_c_message(t: Seq<char>) -> bool {
    &&& t.len() >= 1
    &&& t[t.len() - 1] == '\0'
    &&& forall|i: int| 0 <= i < t.len() - 1 ==> '\u{1}' <= #[trigger] t[i] <= '\u{7f}'
}

/// Every `strerror` message is a C string: ASCII text and one terminator.
pub proof fn lemma_strerror_is_c_message(errnum: i32)
    ensures
        is_c_message(strerror_text(errnum)),
{
    if errnum == EPERM {
        reveal_strlit("Operation not permitted\0");
    } else if errnum == ENOENT {
        reveal_strlit("No such file or directory\0");
    } else if errnum == ESRCH {
        reveal_strlit("No such process\0");
    } else if errnum == EINTR {
        reveal_strlit("Interrupted system call\0");
    } else if errnum == EIO {
        reveal_strlit("Input/output error\0");
    } else if errnum == EBADF {
        reveal_strlit("Bad file descriptor\0");
    } else if errnum == EAGAIN {
        reveal_strlit("Resource temporarily unavailable\0");
    } else if errnum == ENOMEM {
        reveal_strlit("Cannot allocate memory\0");
    } else if errnum == EACCES {
        reveal_strlit("Permission denied\0");
    } else if errnum == EFAULT {
        reveal_strlit("Bad address\0");
    } else if errnum == EBUSY {
        reveal_strlit("Device or resource busy\0");
    } else if errnum == EEXIST {
        reveal_strlit("File exists\0");
    } else if errnum == ENOTDIR {
        reveal_strlit("Not a directory\0");
    } else if errnum == EISDIR {
        reveal_strlit("Is a directory\0");
    } else if errnum == EINVAL {
        reveal_strlit("Invalid argument\0");
    } else if errnum == EMFILE {
        reveal_strlit("Too many open files\0");
    } else if errnum == ENOSPC {
        reveal_strlit("No space left on device\0");
    } else if errnum == EPIPE {
        reveal_strlit("Broken pipe\0");
    } else if errnum == ERANGE {
        reveal_strlit("Numerical result out of range\0");
    } else if errnum == ENOSYS {
        reveal_strlit("Function not implemented\0");
    } else {
        reveal_strlit("Unknown error\0");
    }
}

/// The bytes of a C message are its characters, and its C string is all of
/// them but the terminator.
pub proof fn lemma_c_message_bytes(t: Seq<char>)
    requires
        is_c_message(t),
    ensures
        has_nul(encode_utf8(t)),
        c_len(encode_utf8(t)) == t.len() - 1,
        encode_utf8(t).len() == t.len(),
        forall|i: int| 0 <= i < t.len() ==> #[trigger] encode_utf8(t)[i] == t[i] as u8,
{
    assert(is_ascii_chars(t));
    is_ascii_chars_encode_utf8(t);
    let b = encode_utf8(t);
    assert(b[t.len() - 1] == 0);
    lemma_c_len(b);
    assert(is_nul_scan_end(b, 0, t.len() - 1)) by {
        assert forall|k: int| 0 <= k < t.len() - 1 implies b[k] != 0 by {
            assert('\u{1}' <= t[k]);
        }
    }
}

/// Comparing two C strings gives zero exactly when the strings are equal.
pub proof fn lemma_str_order_zero_iff_equal(a: Seq<u8>, b: Seq<u8>)
    requires
        has_nul(a),
        has_nul(b),
    ensures
        (str_order(a, b) == 0) == (c_str(a) == c_str(b)),
{
    lemma_c_len(a);
    lemma_c_len(b);
    lemma_str_diff_bound(a, b);
    lemma_scan(min_len(a, b), str_diff_at(a, b), 0);
    let k = str_diff(a, b);
    assert(str_diff_at(a, b)(k));
    if str_order(a, b) == 0 {
        assert(a[k] == 0);
        assert forall|j: int| 0 <= j < k implies a[j] != 0 && b[j] != 0 && a[j] == b[j] by {
            assert(!str_diff_at(a, b)(j));
        }
        assert(is_nul_scan_end(a, 0, k));
        assert(is_nul_scan_end(b, 0, k));
        assert(c_str(a) =~= c_str(b));
    } else if c_str(a) == c_str(b) {
        let l = c_len(a);
        assert(c_len(b) == l) by {
            assert(c_str(a).len() == c_str(b).len());
        }
        if k < l {
            assert(c_str(a)[k] == c_str(b)[k]);
            assert(a[k] != 0);
        }
        assert(k == l);
    }
}

/// Comparison is antisymmetric: swapping the strings negates the result.
pub proof fn lemma_str_order_antisymmetric(a: Seq<u8>, b: Seq<u8>)
    requires
        has_nul(a),
        has_nul(b),
    ensures
        str_diff(b, a) == str_diff(a, b),
        str_order(b, a) == -str_order(a, b),
{
    assert(str_diff_at(a, b) =~= str_diff_at(b, a));
    assert(min_len(a, b) == min_len(b, a));
}

/// `strcpy` writes a string that reads back equal to its source.
pub proof fn lemma_strcpy_reads_back(dest: Seq<u8>, src: Seq<u8>)
    requires
        has_nul(src),
        c_len(src) < dest.len(),
    ensures
        ({
            let after = src.take(c_len(src) + 1) + dest.skip(c_len(src) + 1);
            &&& has_nul(after)
            &&& c_str(after) == c_str(src)
            &&& str_order(after, src) == 0
        }),
{
    lemma_c_len(src);
    let l = c_len(src);
    let after = src.take(l + 1) + dest.skip(l + 1);
    assert(after[l] == 0);
    assert(is_nul_scan_end(after, 0, l));
    lemma_c_len(after);
    assert(c_str(after) =~= c_str(src));
    lemma_str_order_zero_iff_equal(after, src);
}

/// `strcat` leaves the concatenation of the two strings in `dest`.
pub proof fn lemma_strcat_concatenates(dest: Seq<u8>, src: Seq<u8>)
    requires
        has_nul(dest),
        has_nul(src),
        c_len(dest) + c_len(src) < dest.len(),
    ensures
        ({
            let after = dest.take(c_len(dest)) + src.take(c_len(src) + 1) + dest.skip(
                c_len(dest) + c_len(src) + 1,
            );
            &&& has_nul(after)
            &&& c_str(after) == c_str(dest) + c_str(src)
        }),
{
    lemma_c_len(dest);
    lemma_c_len(src);
    let ld = c_len(dest);
    let ls = c_len(src);
    let after = dest.take(ld) + src.take(ls + 1) + dest.skip(ld + ls + 1);
    assert(after[ld + ls] == 0);
    assert forall|k: int| 0 <= k < ld + ls implies after[k] != 0 by {
        if k >= ld {
            assert(after[k] == src[k - ld]);
        }
    }
    assert(is_nul_scan_end(after, 0, ld + ls));
    lemma_c_len(after);
    assert(c_str(after) =~= c_str(dest) + c_str(src));
}

/// `memcpy` writes a block that compares equal to its source.
pub proof fn lemma_memcpy_reads_back(dest: Seq<u8>, src: Seq<u8>, n: usize)
    requires
        n <= dest.len(),
        n <= src.len(),
    ensures
        mem_order(src.take(n as int) + dest.skip(n as int), src, n) == 0,
{
    let after = src.take(n as int) + dest.skip(n as int);
    lemma_scan(min_len(after, src), mem_diff_at(after, src), 0);
    let k = mem_diff(after, src);
    if k < n {
        assert(mem_diff_at(after, src)(k));
    }
}

} // verus!
