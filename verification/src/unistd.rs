//! `<unistd.h>`: standard descriptors, `lseek` whence values and the time
//! arithmetic of the sleeping calls.

use vstd::prelude::*;
use crate::types::timespec;

verus! {

pub const STDIN_FILENO: i32 = 0;
pub const STDOUT_FILENO: i32 = 1;
pub const STDERR_FILENO: i32 = 2;

pub const SEEK_SET: i32 = 0;
pub const SEEK_CUR: i32 = 1;
pub const SEEK_END: i32 = 2;

/// The interval `usleep(usec)` sleeps for.
pub fn usleep_interval(usec: u32) -> (r: timespec)
    ensures
        r.tv_sec == usec / 1_000_000,
        r.tv_nsec == (usec % 1_000_000) * 1000,
        r.tv_sec * 1_000_000_000 + r.tv_nsec == usec * 1000,
{
    let sec = usec / 1_000_000;
    let nsec = (usec % 1_000_000) * 1000;
    timespec { tv_sec: sec as i64, tv_nsec: nsec as i64 }
}

/// The interval `sleep(seconds)` sleeps for.
pub fn sleep_interval(seconds: u32) -> (r: timespec)
    ensures
        r.tv_sec == seconds,
        r.tv_nsec == 0,
{
    timespec { tv_sec: seconds as i64, tv_nsec: 0 }
}

} // verus!
