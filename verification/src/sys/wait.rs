//! `<sys/wait.h>`: `waitpid` options.

use vstd::prelude::*;

verus! {

pub const WNOHANG: i32 = 1;
pub const WUNTRACED: i32 = 2;
pub const WCONTINUED: i32 = 8;

} // verus!
