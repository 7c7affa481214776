//! `<fcntl.h>`: the open flags and the "relative to the working directory"
//! descriptor.

use vstd::prelude::*;

verus! {

pub const O_RDONLY: i32 = 0o0;
pub const O_WRONLY: i32 = 0o1;
pub const O_RDWR: i32 = 0o2;
pub const O_CREAT: i32 = 0o100;
pub const O_EXCL: i32 = 0o200;
pub const O_NOCTTY: i32 = 0o400;
pub const O_TRUNC: i32 = 0o1000;
pub const O_APPEND: i32 = 0o2000;
pub const O_NONBLOCK: i32 = 0o4000;
pub const O_DIRECTORY: i32 = 0o200000;
pub const O_CLOEXEC: i32 = 0o2000000;

/// Resolve paths against the current working directory.
pub const AT_FDCWD: i32 = -100;

} // verus!
