//! `<locale.h>`: only the "C" locale exists.

use vstd::prelude::*;

verus! {

pub const LC_ALL: i32 = 6;
pub const LC_COLLATE: i32 = 3;
pub const LC_CTYPE: i32 = 0;
pub const LC_MONETARY: i32 = 4;
pub const LC_NUMERIC: i32 = 1;
pub const LC_TIME: i32 = 2;

/// `setlocale`: whatever is asked, the locale is "C" (returned as a static
/// NUL-terminated name).
pub fn setlocale(category: i32, locale: Option<&[u8]>) -> (r: &'static str)
    ensures
        r@ == "C\0"@,
{
    "C\0"
}

} // verus!
