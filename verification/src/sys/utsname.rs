//! `<sys/utsname.h>`: the system identification that `uname` fills.

use vstd::prelude::*;

verus! {

/// Length of each field, terminator included.
pub const UTS_LEN: usize = 65;

/// System name fields, each a NUL-terminated string in 65 bytes.
pub struct utsname {
    pub sysname: [u8; 65],
    pub nodename: [u8; 65],
    pub release: [u8; 65],
    pub version: [u8; 65],
    pub machine: [u8; 65],
    pub domainname: [u8; 65],
}

} // verus!
