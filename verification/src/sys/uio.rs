//! `<sys/uio.h>`: the buffer descriptor of vectored I/O.

use vstd::prelude::*;

verus! {

/// One buffer of a `readv`/`writev` call: its address and length.
pub struct iovec {
    pub iov_base: usize,
    pub iov_len: usize,
}

} // verus!
