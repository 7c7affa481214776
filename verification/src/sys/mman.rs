//! `<sys/mman.h>`: protection and mapping flags, and how `mmap` reports
//! its result.

use vstd::prelude::*;

verus! {

pub const PROT_NONE: i32 = 0x0;
pub const PROT_READ: i32 = 0x1;
pub const PROT_WRITE: i32 = 0x2;
pub const PROT_EXEC: i32 = 0x4;

pub const MAP_SHARED: i32 = 0x01;
pub const MAP_PRIVATE: i32 = 0x02;
pub const MAP_FIXED: i32 = 0x10;
pub const MAP_ANONYMOUS: i32 = 0x20;

/// The address `mmap` returns on failure: all bits set.
pub const MAP_FAILED: usize = usize::MAX;

/// The address `mmap` returns for the raw result of the system call: the
/// mapping's address, or `MAP_FAILED` for a negative (error) result.
pub fn mmap_result(ret: isize) -> (r: usize)
    ensures
        ret < 0 ==> r == MAP_FAILED,
        ret >= 0 ==> r == ret,
{
    if ret < 0 {
        MAP_FAILED
    } else {
        ret as usize
    }
}

} // verus!
