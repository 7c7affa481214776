//! `<sys/*.h>`: memory mappings, file status, process waiting, vectored
//! I/O and the system name.

pub mod mman;
pub mod stat;
pub mod uio;
pub mod utsname;
pub mod wait;
