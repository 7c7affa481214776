//! `<time.h>`: clock identifiers, broken-down time and the decisions of
//! `time` and `gmtime_r`.

use vstd::prelude::*;
use crate::errno::ENOSYS;

verus! {

pub const CLOCK_REALTIME: i32 = 0;
pub const CLOCK_MONOTONIC: i32 = 1;
pub const CLOCK_PROCESS_CPUTIME_ID: i32 = 2;
pub const CLOCK_THREAD_CPUTIME_ID: i32 = 3;

/// Broken-down calendar time. `tm_zone` is the address of the zone name
/// (0 for none).
#[derive(Clone, Copy)]
pub struct tm {
    pub tm_sec: i32,
    pub tm_min: i32,
    pub tm_hour: i32,
    pub tm_mday: i32,
    pub tm_mon: i32,
    pub tm_year: i32,
    pub tm_wday: i32,
    pub tm_yday: i32,
    pub tm_isdst: i32,
    pub tm_gmtoff: i64,
    pub tm_zone: usize,
}

/// The all-zero `tm`.
pub open spec fn zero_tm() -> tm {
    tm {
        tm_sec: 0,
        tm_min: 0,
        tm_hour: 0,
        tm_mday: 0,
        tm_mon: 0,
        tm_year: 0,
        tm_wday: 0,
        tm_yday: 0,
        tm_isdst: 0,
        tm_gmtoff: 0,
        tm_zone: 0,
    }
}

/// `time`: the seconds of the realtime clock, or -1 when reading the clock
/// (which returned `rc`) failed.
pub fn time_result(rc: i32, tv_sec: i64) -> (r: i64)
    ensures
        r == (if rc != 0 { -1 } else { tv_sec as int }),
{
    if rc != 0 {
        -1
    } else {
        tv_sec
    }
}

/// `gmtime_r`: calendar conversion is not provided; the result is the
/// all-zero `tm`, with `ENOSYS` as the error number.
pub fn gmtime_r(timep: i64) -> (r: (tm, i32))
    ensures
        r == (zero_tm(), ENOSYS),
{
    (
        tm {
            tm_sec: 0,
            tm_min: 0,
            tm_hour: 0,
            tm_mday: 0,
            tm_mon: 0,
            tm_year: 0,
            tm_wday: 0,
            tm_yday: 0,
            tm_isdst: 0,
            tm_gmtoff: 0,
            tm_zone: 0,
        },
        ENOSYS,
    )
}

} // verus!
