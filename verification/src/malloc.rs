//! Allocation sizing. Every allocation is one anonymous page-granular
//! mapping; the block starts `offset` bytes into it (`HEADER` for `malloc`,
//! more for a larger `aligned_alloc` alignment), and the `HEADER` bytes just
//! before the block record the mapping's length and that offset; these
//! functions decide the sizes and the course of `malloc`, `calloc`,
//! `realloc` and `aligned_alloc`, while the mapping calls are the caller's.

use vstd::prelude::*;

verus! {

/// Bytes kept just before the user pointer; they hold the mapping length
/// and the block's offset into the mapping, and keep the user pointer
/// 16-byte aligned.
pub const HEADER: usize = 16;

/// Granularity of a mapping.
pub const PAGE_SIZE: usize = 4096;

/// `x` is a power of two: exactly one bit is set.
pub open spec fn is_pow2(x: usize) -> bool {
    x != 0 && x & ((x - 1) as usize) == 0
}

/// Rounds `n` up with the mask of `to`; when `to` is a power of two this is
/// the least multiple of `to` that is at least `n`.
pub fn round_up(n: usize, to: usize) -> (r: usize)
    requires
        to >= 1,
        n + to - 1 <= usize::MAX,
    ensures
        r == (((n + to - 1) as usize) & !((to - 1) as usize)),
        n <= r < n + to,
        is_pow2(to) ==> r & ((to - 1) as usize) == 0,
{
    let s = n + (to - 1);
    let r = s & !(to - 1);
    assert(r <= s && s - r <= to - 1 && (is_pow2(to) ==> r & ((to - 1) as usize) == 0))
        by (bit_vector)
        requires
            r == s & !((to - 1) as usize),
            to >= 1,
    ;
    r
}

/// Bytes a request of `size` is served with: a request of 0 is served as
/// one of 1 byte.
pub open spec fn wanted(size: usize) -> int {
    if size == 0 {
        1
    } else {
        size as int
    }
}

/// Length of the mapping for a request of `size` bytes placed `offset`
/// bytes into it: whole pages that reach past the request.
pub open spec fn mapping_len(size: usize, offset: usize) -> int {
    let s = wanted(size) + offset + PAGE_SIZE - 1;
    s - s % (PAGE_SIZE as int)
}

/// The mapping length for a request of `size` bytes whose block starts
/// `offset` bytes into the mapping (`HEADER` for `malloc`): whole pages
/// that hold the offset and at least `size` bytes. `None`, which fails
/// with `ENOMEM`, when that length is past the address space.
pub fn malloc_mapping_len(size: usize, offset: usize) -> (r: Option<usize>)
    ensures
        r == (if wanted(size) + offset + PAGE_SIZE - 1 > usize::MAX {
            None::<usize>
        } else {
            Some(mapping_len(size, offset) as usize)
        }),
        r matches Some(t) ==> t % PAGE_SIZE == 0 && offset + wanted(size) <= t < offset + wanted(
            size,
        ) + PAGE_SIZE,
{
    let want: usize = if size == 0 { 1 } else { size };
    if want > usize::MAX - offset || want + offset > usize::MAX - (PAGE_SIZE - 1) {
        return None;
    }
    assert(is_pow2(4096usize)) by (bit_vector);
    let r = round_up(want + offset, PAGE_SIZE);
    let s = want + offset + 4095;
    assert(r == s - s % 4096 && r % 4096 == 0) by (bit_vector)
        requires
            r == s & !4095usize,
    ;
    Some(r)
}

/// Where `aligned_alloc` places a block with the given alignment: the
/// header's width, or the alignment when that is larger. A mapping starts
/// on a page boundary, so the block is aligned as asked.
pub fn user_offset(alignment: usize) -> (r: usize)
    requires
        alignment <= PAGE_SIZE,
        is_pow2(alignment),
    ensures
        r == (if alignment <= HEADER { HEADER } else { alignment }),
        r % alignment == 0,
        HEADER <= r <= PAGE_SIZE,
{
    if alignment <= HEADER {
        assert(HEADER % alignment == 0) by (bit_vector)
            requires
                alignment != 0,
                alignment & ((alignment - 1) as usize) == 0,
                alignment <= 16,
        ;
        HEADER
    } else {
        alignment
    }
}

/// `calloc`'s byte count: `None`, which fails with `ENOMEM`, when
/// `nmemb * size` overflows.
pub fn calloc_len(nmemb: usize, size: usize) -> (r: Option<usize>)
    ensures
        r == (if nmemb * size > usize::MAX {
            None::<usize>
        } else {
            Some((nmemb * size) as usize)
        }),
{
    nmemb.checked_mul(size)
}

/// What `realloc` does.
pub enum ReallocAction {
    /// Behave as `malloc` of this size.
    Allocate(usize),
    /// Free the block and return NULL.
    Release,
    /// The block is large enough: return it unchanged.
    Keep,
    /// Allocate `size` bytes, copy the old block's `copy` usable bytes over,
    /// free the old block and return the new one (NULL when allocation fails,
    /// leaving the old block alone).
    Move { size: usize, copy: usize },
}

/// The usable bytes of a block: its mapping length less the block's
/// offset into the mapping, wrapping as machine words do.
pub open spec fn usable_len(len: usize, offset: usize) -> int {
    if len >= offset {
        len - offset
    } else {
        len - offset + usize::MAX + 1
    }
}

/// `realloc`'s decision, given whether the pointer is NULL and, when it is
/// not, the mapping length and block offset stored in its header.
pub fn realloc_action(is_null: bool, old_len: usize, old_offset: usize, size: usize) -> (r: ReallocAction)
    ensures
        r == (if is_null {
            ReallocAction::Allocate(size)
        } else if size == 0 {
            ReallocAction::Release
        } else if size <= usable_len(old_len, old_offset) {
            ReallocAction::Keep
        } else {
            ReallocAction::Move { size, copy: usable_len(old_len, old_offset) as usize }
        }),
{
    if is_null {
        return ReallocAction::Allocate(size);
    }
    if size == 0 {
        return ReallocAction::Release;
    }
    let usable = if old_len >= old_offset {
        old_len - old_offset
    } else {
        old_len + (usize::MAX - old_offset) + 1
    };
    if size <= usable {
        ReallocAction::Keep
    } else {
        ReallocAction::Move { size, copy: usable }
    }
}

/// `aligned_alloc` accepts alignments that are powers of two up to a page
/// (every mapping is page aligned); others fail with `EINVAL`.
pub fn aligned_alloc_supported(alignment: usize) -> (r: bool)
    ensures
        r == (alignment <= PAGE_SIZE && is_pow2(alignment)),
{
    alignment <= PAGE_SIZE && alignment != 0 && alignment & (alignment - 1) == 0
}

} // verus!
