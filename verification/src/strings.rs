//! `<strings.h>`: case-insensitive comparison and the BSD byte helpers.

use vstd::prelude::*;
use crate::cstr::{c_len, has_nul, lemma_c_len, lemma_scan, lemma_scan_unique, min_len, scan};
use crate::ctype::{lower_of, tolower};
use crate::string::{memmove, memset};

verus! {

/// The value `tolower` gives for a byte.
pub open spec fn folded(b: u8) -> int {
    lower_of(b as i32) as int
}

/// Where a case-insensitive comparison stops: the folded bytes differ or the
/// first string ends.
pub open spec fn case_diff_at(a: Seq<u8>, b: Seq<u8>) -> spec_fn(int) -> bool {
    |k: int| folded(a[k]) != folded(b[k]) || a[k] == 0
}

pub open spec fn case_diff(a: Seq<u8>, b: Seq<u8>) -> int {
    scan(min_len(a, b), case_diff_at(a, b), 0)
}

/// The result of a case-insensitive comparison: the difference of the
/// folded bytes where it stops.
pub open spec fn case_order(a: Seq<u8>, b: Seq<u8>) -> int {
    folded(a[case_diff(a, b)]) - folded(b[case_diff(a, b)])
}

/// Case-insensitive comparison is antisymmetric: swapping the strings
/// negates the result.
pub proof fn lemma_case_order_antisymmetric(a: Seq<u8>, b: Seq<u8>)
    ensures
        case_diff(b, a) == case_diff(a, b),
        case_order(b, a) == -case_order(a, b),
{
    assert forall|k: int| #[trigger] case_diff_at(a, b)(k) == case_diff_at(b, a)(k) by {
        assert(folded(a[k]) == 0 <==> a[k] == 0);
        assert(folded(b[k]) == 0 <==> b[k] == 0);
    }
    assert(case_diff_at(a, b) =~= case_diff_at(b, a));
    assert(min_len(a, b) == min_len(b, a));
}

/// `tolower` of a byte.
fn fold_byte(b: u8) -> (r: i32)
    ensures
        r == folded(b),
        (r == 0) == (b == 0),
{
    tolower(b as i32)
}

proof fn lemma_case_hit(a: Seq<u8>, b: Seq<u8>, i: usize)
    requires
        i < a.len(),
        i < b.len(),
        folded(a[i as int]) != folded(b[i as int]) || a[i as int] == 0,
    ensures
        case_diff_at(a, b)(i as int),
{
}

/// `strcasecmp`: `strcmp` on the bytes folded to lower case.
pub fn strcasecmp(a: &[u8], b: &[u8]) -> (r: i32)
    requires
        case_diff(a@, b@) < a@.len(),
        case_diff(a@, b@) < b@.len(),
    ensures
        r == case_order(a@, b@),
{
    proof { lemma_scan(min_len(a@, b@), case_diff_at(a@, b@), 0); }
    let ghost k = case_diff(a@, b@);
    let mut i: usize = 0;
    loop
        invariant
            i <= k,
            k == case_diff(a@, b@),
            k < a@.len(),
            k < b@.len(),
            k < min_len(a@, b@),
            case_diff_at(a@, b@)(k),
            forall|j: int| 0 <= j < k ==> !#[trigger] case_diff_at(a@, b@)(j),
        decreases k - i,
    {
        let x = fold_byte(a[i]);
        let y = fold_byte(b[i]);
        if x != y || x == 0 {
            proof { lemma_case_hit(a@, b@, i); }
            return x - y;
        }
        i += 1;
    }
}

/// `strncasecmp`: `strcasecmp` limited to the first `n` bytes.
pub fn strncasecmp(a: &[u8], b: &[u8], n: usize) -> (r: i32)
    requires
        case_diff(a@, b@) >= n || (case_diff(a@, b@) < a@.len() && case_diff(a@, b@) < b@.len()),
    ensures
        r == (if case_diff(a@, b@) >= n {
            0
        } else {
            folded(a@[case_diff(a@, b@)]) - folded(b@[case_diff(a@, b@)])
        }),
{
    proof { lemma_scan(min_len(a@, b@), case_diff_at(a@, b@), 0); }
    let ghost k = case_diff(a@, b@);
    let mut i: usize = 0;
    while i < n
        invariant
            i <= n,
            i <= k,
            k == case_diff(a@, b@),
            k >= n || (k < a@.len() && k < b@.len()),
            k <= min_len(a@, b@),
            k < min_len(a@, b@) ==> case_diff_at(a@, b@)(k),
            forall|j: int| 0 <= j < k ==> !#[trigger] case_diff_at(a@, b@)(j),
        decreases n - i,
    {
        let x = fold_byte(a[i]);
        let y = fold_byte(b[i]);
        if x != y || x == 0 {
            proof { lemma_case_hit(a@, b@, i); }
            return x - y;
        }
        i += 1;
    }
    0
}

/// `bzero`: zeroes the first `n` bytes.
pub fn bzero(s: &mut [u8], n: usize)
    requires
        n <= old(s)@.len(),
    ensures
        final(s)@ == Seq::new(n as nat, |k: int| 0u8) + old(s)@.skip(n as int),
{
    memset(s, 0, n);
    assert(Seq::new(n as nat, |k: int| 0i32 as u8) =~= Seq::new(n as nat, |k: int| 0u8));
}

/// `bcopy`: copies `n` bytes from offset `src` to offset `dest` of one
/// buffer (note the source-first order of the C arguments); overlap is
/// allowed.
pub fn bcopy(buf: &mut [u8], src: usize, dest: usize, n: usize)
    requires
        dest + n <= old(buf)@.len(),
        src + n <= old(buf)@.len(),
    ensures
        final(buf)@ == old(buf)@.take(dest as int) + old(buf)@.subrange(src as int, src + n)
            + old(buf)@.skip(dest + n),
{
    memmove(buf, dest, src, n);
}

/// `ffs`: the 1-based position of the least significant set bit, 0 for 0.
pub fn ffs(i: i32) -> (r: i32)
    ensures
        i == 0 ==> r == 0,
        i != 0 ==> 1 <= r <= 32 && ((i as u32) >> ((r - 1) as u32)) & 1u32 == 1u32 && forall|
            j: u32,
        | j < r - 1 ==> #[trigger] ((i as u32) >> j) & 1u32 == 0u32,
{
    if i == 0 {
        0
    } else {
        let u = i as u32;
        assert(u != 0) by (bit_vector)
            requires
                u == i as u32,
                i != 0,
        ;
        proof {
            vstd::std_specs::bits::axiom_u32_trailing_zeros(u);
        }
        let tz = u.trailing_zeros();
        (tz + 1) as i32
    }
}

/// `a` and `b` hold the same bytes but for the case of letters: at each
/// index the bytes are equal, or one is an ASCII letter and the other the
/// same letter in the other case.
pub open spec fn same_but_case(a: Seq<u8>, b: Seq<u8>) -> bool {
    &&& a.len() == b.len()
    &&& forall|k: int|
        0 <= k < a.len() ==> #[trigger] a[k] == b[k] || (0x41 <= a[k] <= 0x5a && b[k] == a[k]
            + 32) || (0x61 <= a[k] <= 0x7a && b[k] == a[k] - 32)
}

/// Strings that differ only in the case of their letters compare equal
/// under `strcasecmp`.
pub proof fn lemma_case_blind_equal(a: Seq<u8>, b: Seq<u8>)
    requires
        has_nul(a),
        same_but_case(a, b),
    ensures
        case_diff(a, b) == c_len(a),
        case_order(a, b) == 0,
{
    lemma_c_len(a);
    let l = c_len(a);
    assert forall|k: int| 0 <= k < l implies !#[trigger] case_diff_at(a, b)(k) by {
        assert(a[k] != 0);
        assert(a[k] == b[k] || (0x41 <= a[k] <= 0x5a && b[k] == a[k] + 32) || (0x61 <= a[k] <= 0x7a
            && b[k] == a[k] - 32));
    }
    assert(a[l] == 0);
    assert(b[l] == 0);
    assert(case_diff_at(a, b)(l));
    assert(min_len(a, b) == a.len());
    lemma_scan_unique(min_len(a, b), case_diff_at(a, b), 0, l);
}

} // verus!
