//! C and POSIX types shared across the headers (Linux LP64).

use vstd::prelude::*;

verus! {

/// `struct timespec`: seconds and nanoseconds.
#[derive(Clone, Copy)]
pub struct timespec {
    pub tv_sec: i64,
    pub tv_nsec: i64,
}

/// `struct timeval`: seconds and microseconds.
#[derive(Clone, Copy)]
pub struct timeval {
    pub tv_sec: i64,
    pub tv_usec: i64,
}

} // verus!
