//! `<poll.h>`: the descriptor set entry and the timeout of `ppoll`.

use vstd::prelude::*;
use crate::types::timespec;

verus! {

pub const POLLIN: i16 = 0x001;
pub const POLLPRI: i16 = 0x002;
pub const POLLOUT: i16 = 0x004;
pub const POLLERR: i16 = 0x008;
pub const POLLHUP: i16 = 0x010;
pub const POLLNVAL: i16 = 0x020;

/// `struct pollfd`.
#[derive(Clone, Copy)]
pub struct pollfd {
    pub fd: i32,
    pub events: i16,
    pub revents: i16,
}

/// The timeout `poll` hands to `ppoll` for `timeout` milliseconds: none
/// (block indefinitely) when negative.
pub fn ppoll_timeout(timeout: i32) -> (r: Option<timespec>)
    ensures
        timeout < 0 ==> r is None,
        timeout >= 0 ==> r == Some(
            timespec { tv_sec: (timeout / 1000) as i64, tv_nsec: ((timeout % 1000) * 1_000_000) as i64 },
        ),
{
    if timeout < 0 {
        None
    } else {
        let t = timeout as u32;
        let sec = t / 1000;
        let nsec = (t % 1000) * 1_000_000;
        Some(timespec { tv_sec: sec as i64, tv_nsec: nsec as i64 })
    }
}

} // verus!
