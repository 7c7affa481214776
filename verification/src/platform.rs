//! The Linux system-call result convention: a raw result in
//! `-4095..=-1` (as a machine word) is `-errno`.

use vstd::prelude::*;

verus! {

/// Largest error number the kernel returns in band.
pub const MAX_ERRNO: usize = 4095;

/// A raw result that stands for an error.
pub open spec fn is_error_result(raw: usize) -> bool {
    raw > usize::MAX - MAX_ERRNO
}

/// The libc reading of a raw system-call result: `Err(errno)` for an
/// in-band error (the caller sets `errno` and returns -1), else the value as
/// a `long`.
pub fn syscall_ret(raw: usize) -> (r: Result<i64, i32>)
    ensures
        is_error_result(raw) ==> r == Err::<i64, i32>((usize::MAX - raw + 1) as i32),
        !is_error_result(raw) ==> r == Ok::<i64, i32>(raw as i64),
        r matches Err(e) ==> 1 <= e <= 4095,
{
    if raw > usize::MAX - MAX_ERRNO {
        Err((usize::MAX - raw + 1) as i32)
    } else {
        Ok(raw as i64)
    }
}

} // verus!
