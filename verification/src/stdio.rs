//! `<stdio.h>`: the stream object and the decisions of the unbuffered
//! output and input routines. The reads and writes themselves are the
//! caller's: these functions say what to transfer and interpret the result.

use vstd::prelude::*;
use vstd::utf8::encode_utf8;
use crate::cstr::{c_len, c_str, has_nul};
use crate::errno::{EBADF, ENOSYS};
use crate::message::{append_bytes, append_c_str, colon_space};
use crate::string::{lemma_c_message_bytes, lemma_strerror_is_c_message, strerror, strerror_text};

verus! {

/// End-of-file / error value of the character functions.
pub const EOF: i32 = -1;

/// Buffer size hint.
pub const BUFSIZ: i32 = 8192;

/// A C stream: a file descriptor and the sticky error and end-of-file flags.
pub struct FILE {
    fd: i32,
    error: i32,
    eof: i32,
}

impl FILE {
    pub closed spec fn fd_of(&self) -> i32 {
        self.fd
    }

    pub closed spec fn error_of(&self) -> i32 {
        self.error
    }

    pub closed spec fn eof_of(&self) -> i32 {
        self.eof
    }

    /// A stream on `fd` with both flags clear.
    pub fn new(fd: i32) -> (r: FILE)
        ensures
            r.fd_of() == fd,
            r.error_of() == 0,
            r.eof_of() == 0,
    {
        FILE { fd, error: 0, eof: 0 }
    }
}

/// `fileno`: the stream's descriptor; a NULL stream fails with `EBADF`.
pub fn fileno(stream: Option<&FILE>) -> (r: Result<i32, i32>)
    ensures
        r == (match stream {
            Some(f) => Ok::<i32, i32>(f.fd_of()),
            None => Err::<i32, i32>(EBADF),
        }),
{
    match stream {
        Some(f) => Ok(f.fd),
        None => Err(EBADF),
    }
}

/// `ferror`: the stream's error flag (0 for a NULL stream).
pub fn ferror(stream: Option<&FILE>) -> (r: i32)
    ensures
        r == (match stream {
            Some(f) => f.error_of(),
            None => 0,
        }),
{
    match stream {
        Some(f) => f.error,
        None => 0,
    }
}

/// `feof`: the stream's end-of-file flag (0 for a NULL stream).
pub fn feof(stream: Option<&FILE>) -> (r: i32)
    ensures
        r == (match stream {
            Some(f) => f.eof_of(),
            None => 0,
        }),
{
    match stream {
        Some(f) => f.eof,
        None => 0,
    }
}

/// `clearerr`: clears both flags (a NULL stream is left to the caller, for
/// which the call does nothing).
pub fn clearerr(stream: &mut FILE)
    ensures
        final(stream).fd_of() == old(stream).fd_of(),
        final(stream).error_of() == 0,
        final(stream).eof_of() == 0,
{
    stream.error = 0;
    stream.eof = 0;
}

/// `fflush`: output is unbuffered, so there is nothing to flush.
pub fn fflush(stream: Option<&FILE>) -> (r: i32)
    ensures
        r == 0,
{
    0
}

/// `fopen`: opening files by name is not provided; it fails with `ENOSYS`.
pub fn fopen(path: &[u8], mode: &[u8]) -> (r: Result<FILE, i32>)
    ensures
        r == Err::<FILE, i32>(ENOSYS),
{
    Err(ENOSYS)
}

/// The next thing a complete write of `len` bytes does.
pub enum WriteStep {
    /// Write `count` bytes starting at `offset`.
    Write { offset: usize, count: usize },
    /// The transfer is over; the routine returns this count.
    Done(isize),
}

/// What one write's result means for a complete write.
pub enum WriteProgress {
    /// Go on from this offset.
    Continue(usize),
    /// Stop and return this value.
    Finished(isize),
}

/// A complete write of `len` bytes, `off` of them written so far: write the
/// rest, or report the count when nothing is left.
pub fn write_all_step(off: usize, len: usize) -> (r: WriteStep)
    ensures
        off < len ==> r == (WriteStep::Write { offset: off, count: (len - off) as usize }),
        off >= len ==> r == WriteStep::Done(off as isize),
{
    if off < len {
        WriteStep::Write { offset: off, count: len - off }
    } else {
        WriteStep::Done(off as isize)
    }
}

/// Interprets the result `n` of writing the remaining `len - off` bytes:
/// a failure sets the stream's error flag and ends with -1, a zero-length
/// write ends with the count so far, and a short write goes on.
pub fn write_all_record(stream: &mut FILE, off: usize, len: usize, n: isize) -> (r: WriteProgress)
    requires
        off < len,
        n <= len - off,
    ensures
        final(stream).fd_of() == old(stream).fd_of(),
        final(stream).eof_of() == old(stream).eof_of(),
        final(stream).error_of() == (if n < 0 { 1 } else { old(stream).error_of() }),
        r == (if n < 0 {
            WriteProgress::Finished(-1isize)
        } else if n == 0 {
            WriteProgress::Finished(off as isize)
        } else {
            WriteProgress::Continue((off + n) as usize)
        }),
{
    if n < 0 {
        stream.error = 1;
        WriteProgress::Finished(-1)
    } else if n == 0 {
        WriteProgress::Finished(off as isize)
    } else {
        WriteProgress::Continue(off + n as usize)
    }
}

/// Number of bytes `fwrite`/`fread` transfer for `nmemb` elements of `size`
/// bytes: `None` when that is zero or overflows, in which case they return 0.
pub fn transfer_total(size: usize, nmemb: usize) -> (r: Option<usize>)
    ensures
        r == (if size * nmemb == 0 || size * nmemb > usize::MAX {
            None::<usize>
        } else {
            Some((size * nmemb) as usize)
        }),
{
    match size.checked_mul(nmemb) {
        Some(t) => if t == 0 { None } else { Some(t) },
        None => None,
    }
}

/// What `fwrite` returns after a complete write that returned `written`:
/// the number of whole elements written, 0 on failure.
pub fn fwrite_count(written: isize, size: usize) -> (r: usize)
    requires
        size > 0,
    ensures
        r == (if written < 0 { 0 } else { written as int / size as int }),
{
    if written < 0 {
        0
    } else {
        written as usize / size
    }
}

/// What `fputs` returns after writing the string: `EOF` on failure, else 0.
pub fn fputs_result(n: isize) -> (r: i32)
    ensures
        r == (if n < 0 { EOF } else { 0 }),
{
    if n < 0 {
        EOF
    } else {
        0
    }
}

/// The byte `fputc` writes for `c`.
pub fn fputc_byte(c: i32) -> (r: u8)
    ensures
        r == c as u8,
{
    c as u8
}

/// What `fputc` returns after writing its byte: `EOF` on failure, else the
/// byte written as an `unsigned char` value.
pub fn fputc_result(n: isize, c: i32) -> (r: i32)
    ensures
        r == (if n < 0 { EOF } else { c & 0xff }),
{
    if n < 0 {
        EOF
    } else {
        c & 0xff
    }
}

/// `puts` writes the string, then a newline; it returns `EOF` when either
/// step returned `EOF` (the second is not attempted after the first fails),
/// else 0.
pub fn puts_result(fputs_r: i32, fputc_r: i32) -> (r: i32)
    ensures
        r == (if fputs_r == EOF || fputc_r == EOF { EOF } else { 0 }),
{
    if fputs_r == EOF || fputc_r == EOF {
        EOF
    } else {
        0
    }
}

/// What `fread` returns after the read returned `n`, updating the flags: a
/// failure sets the error flag and gives 0, end of file sets the end-of-file
/// flag, and otherwise the count is the number of whole elements read.
pub fn fread_finish(stream: &mut FILE, n: isize, size: usize) -> (r: usize)
    requires
        size > 0,
    ensures
        final(stream).fd_of() == old(stream).fd_of(),
        final(stream).error_of() == (if n < 0 { 1 } else { old(stream).error_of() }),
        final(stream).eof_of() == (if n == 0 { 1 } else { old(stream).eof_of() }),
        r == (if n < 0 { 0 } else { n as int / size as int }),
{
    if n < 0 {
        stream.error = 1;
        return 0;
    }
    if n == 0 {
        stream.eof = 1;
    }
    n as usize / size
}

/// What `fclose` does with a stream.
pub enum CloseAction {
    /// Return this value without closing anything.
    Return(i32),
    /// Close this descriptor and return what closing returns.
    Close(i32),
}

/// `fclose`: a NULL stream gives `EOF`; the standard streams (descriptors
/// up to 2) are left open and give 0; any other descriptor is closed.
pub fn fclose_action(stream: Option<&FILE>) -> (r: CloseAction)
    ensures
        r == (match stream {
            None => CloseAction::Return(EOF),
            Some(f) => if f.fd_of() <= 2 {
                CloseAction::Return(0)
            } else {
                CloseAction::Close(f.fd_of())
            },
        }),
{
    match stream {
        None => CloseAction::Return(EOF),
        Some(f) => if f.fd <= 2 {
            CloseAction::Return(0)
        } else {
            CloseAction::Close(f.fd)
        },
    }
}

/// What `printf` and `fprintf` return after writing the formatted text
/// (`printf::vformat`): -1 on failure, else the count.
pub fn printf_result(n: isize) -> (r: i32)
    ensures
        r == (if n < 0 { -1i32 } else { n as i32 }),
{
    if n < 0 {
        -1
    } else {
        n as i32
    }
}

/// The bytes of the `strerror` message for `errnum`, terminator included.
pub open spec fn strerror_bytes(errnum: i32) -> Seq<u8> {
    encode_utf8(strerror_text(errnum))
}

/// What `perror` writes to standard error: `s: ` when `s` is a non-empty
/// string, the message for `errnum`, and a newline.
pub open spec fn perror_text(s: Option<Seq<u8>>, errnum: i32) -> Seq<u8> {
    let prefix = match s {
        Some(t) => if t[0] != 0 {
            c_str(t) + colon_space()
        } else {
            Seq::empty()
        },
        None => Seq::empty(),
    };
    prefix + c_str(strerror_bytes(errnum)) + seq![0x0au8]
}

/// The message `perror(s)` prints when `errno` is `errnum`.
pub fn perror_message(s: Option<&[u8]>, errnum: i32) -> (r: Vec<u8>)
    requires
        match s {
            Some(t) => has_nul(t@),
            None => true,
        },
    ensures
        r@ == perror_text(
            match s {
                Some(t) => Some(t@),
                None => None,
            },
            errnum,
        ),
{
    let sep: [u8; 2] = [0x3a, 0x20];
    let newline: [u8; 1] = [0x0a];
    let mut out: Vec<u8> = Vec::new();
    match s {
        Some(t) => {
            if t[0] != 0 {
                append_c_str(&mut out, t);
                append_bytes(&mut out, &sep);
            }
        },
        None => {},
    }
    let msg = strerror(errnum).as_bytes();
    proof {
        lemma_strerror_is_c_message(errnum);
        lemma_c_message_bytes(strerror_text(errnum));
    }
    append_c_str(&mut out, msg);
    append_bytes(&mut out, &newline);
    out
}

} // verus!
