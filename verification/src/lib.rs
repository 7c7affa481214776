//! A C standard library core whose byte, string and numeric routines are
//! verified: every function works on slices and plain values and states
//! its result over sequence models.

pub mod arith;
pub mod cstr;
pub mod ctype;
pub mod dirent;
pub mod errno;
pub mod fcntl;
pub mod printf;
pub mod locale;
pub mod malloc;
pub mod math;
pub mod message;
pub mod platform;
pub mod poll;
pub mod pthread;
pub mod signal;
pub mod sort;
pub mod stdio;
pub mod stdlib;
pub mod string;
pub mod strings;
pub mod sys;
pub mod wchar;
pub mod time;
pub mod types;
pub mod unistd;
