//! The model of C strings: a byte buffer whose string ends at its first NUL.

use vstd::prelude::*;

verus! {

/// Index of the first NUL at or after `i`, or `s.len()` when there is none.
pub open spec fn nul_from(s: Seq<u8>, i: int) -> int
    decreases s.len() - i,
{
    if i < 0 || i >= s.len() {
        s.len() as int
    } else if s[i] == 0 {
        i
    } else {
        nul_from(s, i + 1)
    }
}

/// Length of the C string held in `s` (its buffer length when it holds no NUL).
pub open spec fn c_len(s: Seq<u8>) -> int {
    nul_from(s, 0)
}

/// `s` holds a NUL byte, so that it holds a complete C string.
pub open spec fn has_nul(s: Seq<u8>) -> bool {
    exists|i: int| 0 <= i < s.len() && s[i] == 0
}

/// The bytes of the C string held in `s`, without its terminator.
pub open spec fn c_str(s: Seq<u8>) -> Seq<u8> {
    s.take(c_len(s))
}

/// `n` is where the scan from `i` for a NUL stops: a NUL or the buffer's end,
/// with no NUL before it.
pub open spec fn is_nul_scan_end(s: Seq<u8>, i: int, n: int) -> bool {
    &&& i <= n <= s.len()
    &&& (n == s.len() || s[n] == 0)
    &&& forall|k: int| i <= k < n ==> s[k] != 0
}

pub proof fn lemma_nul_from(s: Seq<u8>, i: int)
    requires
        0 <= i <= s.len(),
    ensures
        is_nul_scan_end(s, i, nul_from(s, i)),
        forall|n: int| is_nul_scan_end(s, i, n) ==> n == nul_from(s, i),
    decreases s.len() - i,
{
    if i < s.len() && s[i] != 0 {
        lemma_nul_from(s, i + 1);
    }
}

/// What `c_len` is: the first NUL, or the buffer's length.
pub proof fn lemma_c_len(s: Seq<u8>)
    ensures
        is_nul_scan_end(s, 0, c_len(s)),
        forall|n: int| is_nul_scan_end(s, 0, n) ==> n == c_len(s),
        has_nul(s) <==> c_len(s) < s.len(),
{
    lemma_nul_from(s, 0);
}


/// First index in `[i, len)` where `p` holds, or `len` when there is none.
pub open spec fn scan(len: int, p: spec_fn(int) -> bool, i: int) -> int
    decreases len - i,
{
    if i < 0 || i >= len {
        len
    } else if p(i) {
        i
    } else {
        scan(len, p, i + 1)
    }
}

pub proof fn lemma_scan(len: int, p: spec_fn(int) -> bool, i: int)
    requires
        0 <= i <= len,
    ensures
        i <= scan(len, p, i) <= len,
        scan(len, p, i) < len ==> p(scan(len, p, i)),
        forall|k: int| i <= k < scan(len, p, i) ==> !#[trigger] p(k),
    decreases len - i,
{
    if i < len && !p(i) {
        lemma_scan(len, p, i + 1);
    }
}

/// A scan that finds no hit before `j` and stops at `j` ends where `scan` says.
pub proof fn lemma_scan_unique(len: int, p: spec_fn(int) -> bool, i: int, j: int)
    requires
        0 <= i <= j <= len,
        forall|k: int| i <= k < j ==> !#[trigger] p(k),
        j == len || p(j),
    ensures
        scan(len, p, i) == j,
    decreases j - i,
{
    if i < j {
        lemma_scan_unique(len, p, i + 1, j);
    }
}

pub open spec fn min_len(a: Seq<u8>, b: Seq<u8>) -> int {
    if a.len() < b.len() {
        a.len() as int
    } else {
        b.len() as int
    }
}

/// Where a string comparison stops: the bytes differ or the first string ends.
pub open spec fn str_diff_at(a: Seq<u8>, b: Seq<u8>) -> spec_fn(int) -> bool {
    |k: int| a[k] != b[k] || a[k] == 0
}

/// Index where `strcmp`/`strncmp` stop reading (`min_len` when the buffers
/// run out first).
pub open spec fn str_diff(a: Seq<u8>, b: Seq<u8>) -> int {
    scan(min_len(a, b), str_diff_at(a, b), 0)
}

pub open spec fn mem_diff_at(a: Seq<u8>, b: Seq<u8>) -> spec_fn(int) -> bool {
    |k: int| a[k] != b[k]
}

/// First index where two blocks differ (`min_len` when none does).
pub open spec fn mem_diff(a: Seq<u8>, b: Seq<u8>) -> int {
    scan(min_len(a, b), mem_diff_at(a, b), 0)
}

pub open spec fn byte_at(s: Seq<u8>, x: u8) -> spec_fn(int) -> bool {
    |k: int| s[k] == x
}

/// First index holding `x` (`s.len()` when none does).
pub open spec fn byte_find(s: Seq<u8>, x: u8) -> int {
    scan(s.len() as int, byte_at(s, x), 0)
}

pub open spec fn byte_or_nul_at(s: Seq<u8>, x: u8) -> spec_fn(int) -> bool {
    |k: int| s[k] == x || s[k] == 0
}

/// Where `strchr` stops: the first `x` or NUL.
pub open spec fn chr_stop(s: Seq<u8>, x: u8) -> int {
    scan(s.len() as int, byte_or_nul_at(s, x), 0)
}

/// Last index below `n` holding `x`, or -1.
pub open spec fn byte_rfind(s: Seq<u8>, x: u8, n: int) -> int
    decreases n,
{
    if n <= 0 {
        -1
    } else if s[n - 1] == x {
        n - 1
    } else {
        byte_rfind(s, x, n - 1)
    }
}

pub proof fn lemma_byte_rfind(s: Seq<u8>, x: u8, n: int)
    requires
        0 <= n <= s.len(),
    ensures
        -1 <= byte_rfind(s, x, n) < n,
        byte_rfind(s, x, n) >= 0 ==> s[byte_rfind(s, x, n)] == x,
        forall|k: int| byte_rfind(s, x, n) < k < n ==> s[k] != x,
    decreases n,
{
    if n > 0 && s[n - 1] != x {
        lemma_byte_rfind(s, x, n - 1);
    }
}

/// `x` occurs in the C string held in `s`.
pub open spec fn in_c_str(s: Seq<u8>, x: u8) -> bool {
    c_str(s).contains(x)
}

/// A scan stops no later than any index where its predicate holds.
pub proof fn lemma_scan_le(len: int, p: spec_fn(int) -> bool, i: int, j: int)
    requires
        0 <= i <= j < len,
        p(j),
    ensures
        scan(len, p, i) <= j,
{
    lemma_scan(len, p, i);
}

/// Comparing two C strings stops at or before the end of either.
pub proof fn lemma_str_diff_bound(a: Seq<u8>, b: Seq<u8>)
    requires
        has_nul(a),
        has_nul(b),
    ensures
        str_diff(a, b) <= c_len(a),
        str_diff(a, b) <= c_len(b),
        str_diff(a, b) < min_len(a, b),
{
    lemma_c_len(a);
    lemma_c_len(b);
    let j = if c_len(a) < c_len(b) { c_len(a) } else { c_len(b) };
    assert(str_diff_at(a, b)(j));
    lemma_scan_le(min_len(a, b), str_diff_at(a, b), 0, j);
}

/// Comparing a C string against a prefix pattern: the first `c_len(nd)` bytes
/// agree exactly when the comparison runs past them.
pub proof fn lemma_prefix_match(h: Seq<u8>, nd: Seq<u8>)
    requires
        has_nul(h),
        has_nul(nd),
    ensures
        (str_diff(h, nd) >= c_len(nd)) == (c_len(nd) <= h.len() && h.take(c_len(nd)) == c_str(
            nd,
        )),
        str_diff(h, nd) < c_len(nd) ==> h[str_diff(h, nd)] != nd[str_diff(h, nd)],
{
    lemma_c_len(h);
    lemma_c_len(nd);
    lemma_str_diff_bound(h, nd);
    lemma_scan(min_len(h, nd), str_diff_at(h, nd), 0);
    let k = str_diff(h, nd);
    let l = c_len(nd);
    if k >= l {
        assert forall|j: int| 0 <= j < l implies h.take(l)[j] == c_str(nd)[j] by {
            assert(!str_diff_at(h, nd)(j));
        }
        assert(h.take(l) =~= c_str(nd));
    } else {
        assert(str_diff_at(h, nd)(k));
        if l <= h.len() && h.take(l) == c_str(nd) {
            assert(h.take(l)[k] == c_str(nd)[k]);
        }
    }
}

/// For a non-NUL byte, `strchr` finds it exactly when it occurs in the string.
pub proof fn lemma_chr_membership(s: Seq<u8>, x: u8)
    requires
        has_nul(s),
        x != 0,
    ensures
        chr_stop(s, x) <= c_len(s) < s.len(),
        (s[chr_stop(s, x)] == x) == in_c_str(s, x),
{
    lemma_c_len(s);
    assert(byte_or_nul_at(s, x)(c_len(s)));
    lemma_scan_le(s.len() as int, byte_or_nul_at(s, x), 0, c_len(s));
    lemma_scan(s.len() as int, byte_or_nul_at(s, x), 0);
    let k = chr_stop(s, x);
    if s[k] == x {
        assert(c_str(s)[k] == x);
    }
    if in_c_str(s, x) {
        let j = choose|j: int| 0 <= j < c_str(s).len() && c_str(s)[j] == x;
        assert(byte_or_nul_at(s, x)(j));
        lemma_scan_le(s.len() as int, byte_or_nul_at(s, x), 0, j);
    }
}

} // verus!
