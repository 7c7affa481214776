//! `<dirent.h>`: directory streams. `readdir` hands out the records of a
//! buffer the kernel filled (`getdents64`), one `linux_dirent64` at a time:
//! `u64 d_ino; i64 d_off; u16 d_reclen; u8 d_type; char d_name[]`, all
//! little-endian. The buffer refills are the caller's.

use vstd::prelude::*;
use crate::cstr::{lemma_scan, lemma_scan_le, scan};
use crate::errno::{EBADF, EINVAL};

verus! {

pub const DT_UNKNOWN: u8 = 0;
pub const DT_FIFO: u8 = 1;
pub const DT_CHR: u8 = 2;
pub const DT_DIR: u8 = 4;
pub const DT_BLK: u8 = 6;
pub const DT_REG: u8 = 8;
pub const DT_LNK: u8 = 10;
pub const DT_SOCK: u8 = 12;

/// Size of the record buffer of a directory stream.
pub const BUF_SIZE: usize = 4096;

/// Offset of the name within a record.
pub const NAME_OFFSET: usize = 19;

/// `struct dirent`; `d_name` holds at most 255 bytes and a terminator.
pub struct dirent {
    pub d_ino: u64,
    pub d_off: i64,
    pub d_reclen: u16,
    pub d_type: u8,
    pub d_name: Vec<u8>,
}

impl dirent {
    /// An entry with every field zero.
    pub fn zeroed() -> (r: dirent)
        ensures
            r.d_ino == 0,
            r.d_off == 0,
            r.d_reclen == 0,
            r.d_type == 0,
            r.d_name@ == Seq::new(256, |k: int| 0u8),
    {
        let mut name: Vec<u8> = Vec::new();
        let mut k: usize = 0;
        while k < 256
            invariant
                k <= 256,
                name@ == Seq::new(k as nat, |j: int| 0u8),
            decreases 256 - k,
        {
            name.push(0);
            k += 1;
        }
        dirent { d_ino: 0, d_off: 0, d_reclen: 0, d_type: 0, d_name: name }
    }
}

/// The little-endian number in `b[i..i + n]`.
pub open spec fn le_value(b: Seq<u8>, i: int, n: nat) -> int
    decreases n,
{
    if n == 0 {
        0
    } else {
        b[i] + 256 * le_value(b, i + 1, (n - 1) as nat)
    }
}

pub open spec fn nul_in(b: Seq<u8>) -> spec_fn(int) -> bool {
    |k: int| b[k] == 0
}

/// Index of the first NUL at or after `i` in `b` (`b.len()` when none).
pub open spec fn nul_after(b: Seq<u8>, i: int) -> int {
    scan(b.len() as int, nul_in(b), i)
}

/// How many name bytes `readdir` copies for the record at `pos`: up to the
/// NUL, and no more than 255.
pub open spec fn name_len(b: Seq<u8>, pos: int) -> int {
    let k = nul_after(b, pos + NAME_OFFSET) - (pos + NAME_OFFSET);
    if k < 255 {
        k
    } else {
        255
    }
}

/// The record at `pos` can be read: its header lies in the buffer, and so
/// does its name up to the NUL or 255 bytes.
pub open spec fn record_readable(b: Seq<u8>, pos: int) -> bool {
    &&& 0 <= pos
    &&& pos + NAME_OFFSET <= b.len()
    &&& (nul_after(b, pos + NAME_OFFSET) < b.len() || pos + NAME_OFFSET + 255 <= b.len())
}

/// `256` to the power `n`.
pub open spec fn pow256(n: nat) -> int
    decreases n,
{
    if n == 0 {
        1
    } else {
        256 * pow256((n - 1) as nat)
    }
}

proof fn lemma_pow256_mono(m: nat, n: nat)
    requires
        m <= n,
    ensures
        1 <= pow256(m) <= pow256(n),
    decreases n,
{
    if n > m {
        lemma_pow256_mono(m, (n - 1) as nat);
    } else if n > 0 {
        lemma_pow256_mono(0, (n - 1) as nat);
    }
}

proof fn lemma_le_value_bound(b: Seq<u8>, i: int, n: nat)
    ensures
        0 <= le_value(b, i, n) < pow256(n),
    decreases n,
{
    if n > 0 {
        lemma_le_value_bound(b, i + 1, (n - 1) as nat);
        let rest = le_value(b, i + 1, (n - 1) as nat);
        let p = pow256((n - 1) as nat);
        let byte = b[i];
        assert(0 <= byte + 256 * rest < 256 * p) by (nonlinear_arith)
            requires
                0 <= rest < p,
                0 <= byte < 256,
        ;
    }
}

fn read_le_u64(b: &[u8], i: usize) -> (r: u64)
    requires
        i + 8 <= b@.len(),
    ensures
        r == le_value(b@, i as int, 8),
{
    proof {
        reveal_with_fuel(pow256, 9);
    }
    assert(pow256(8) == 0x1_0000_0000_0000_0000);
    assert(b@.len() == b.len());
    let mut v: u64 = 0;
    let mut k: usize = 8;
    while k > 0
        invariant
            k <= 8,
            i + 8 <= b@.len(),
            b@.len() <= usize::MAX,
            pow256(8) == 0x1_0000_0000_0000_0000,
            v == le_value(b@, i + k, (8 - k) as nat),
        decreases k,
    {
        k -= 1;
        let byte = b[i + k];
        proof {
            lemma_le_value_bound(b@, i + k, (8 - k) as nat);
            lemma_pow256_mono((8 - k) as nat, 8);
        }
        assert(byte + 256 * v == le_value(b@, i + k, (8 - k) as nat));
        v = byte as u64 + 256 * v;
    }
    v
}

/// `after` is `before` with the record at `pos` of `b` copied in, as
/// `readdir` does: the fixed fields, then the name up to and including its
/// NUL but at most 255 bytes, and a NUL in the last name byte. The rest of
/// `d_name` keeps what an earlier record left there.
pub open spec fn entry_filled(before: dirent, after: dirent, b: Seq<u8>, pos: int) -> bool {
    let l = name_len(b, pos);
    let name = after.d_name@;
    &&& after.d_ino == le_value(b, pos, 8)
    &&& after.d_off == (le_value(b, pos + 8, 8) as u64) as i64
    &&& after.d_reclen == le_value(b, pos + 16, 2)
    &&& after.d_type == b[pos + 18]
    &&& name.len() == 256
    &&& forall|k: int| 0 <= k < l ==> name[k] == b[pos + NAME_OFFSET + k]
    &&& (l < 255 ==> name[l] == 0)
    &&& name[255] == 0
    &&& forall|k: int| l < k < 255 ==> name[k] == before.d_name@[k]
}

/// Copies the record at `pos` of `buf` into `entry`.
fn fill_dirent(entry: &mut dirent, buf: &[u8], pos: usize)
    requires
        old(entry).d_name@.len() == 256,
        record_readable(buf@, pos as int),
    ensures
        entry_filled(*old(entry), *final(entry), buf@, pos as int),
{
    let ghost start = pos + NAME_OFFSET;
    assert(buf@.len() == buf.len());
    proof {
        lemma_scan(buf@.len() as int, nul_in(buf@), start);
    }
    let ghost l = name_len(buf@, pos as int);
    assert(start + l <= buf@.len());
    assert(l < 255 ==> start + l < buf@.len());
    let name_start = pos + NAME_OFFSET;
    let mut i: usize = 0;
    while i < 255
        invariant_except_break
            i <= l,
            l == name_len(buf@, pos as int),
            start + l <= buf@.len(),
            l < 255 ==> start + l < buf@.len(),
            start == name_start,
            start == pos + NAME_OFFSET,
            record_readable(buf@, pos as int),
            buf@.len() <= usize::MAX,
            start <= nul_after(buf@, start) <= buf@.len(),
            nul_after(buf@, start) < buf@.len() ==> nul_in(buf@)(nul_after(buf@, start)),
            forall|k: int| start <= k < nul_after(buf@, start) ==> !#[trigger] nul_in(buf@)(k),
            entry.d_name@.len() == 256,
            forall|k: int| 0 <= k < i ==> entry.d_name@[k] == buf@[start + k],
            forall|k: int| i <= k < 256 ==> entry.d_name@[k] == old(entry).d_name@[k],
        ensures
            entry.d_name@.len() == 256,
            forall|k: int| 0 <= k < l ==> entry.d_name@[k] == buf@[start + k],
            l < 255 ==> entry.d_name@[l] == 0,
            forall|k: int| l < k < 256 ==> entry.d_name@[k] == old(entry).d_name@[k],
        decreases 255 - i,
    {
        let ch = buf[name_start + i];
        entry.d_name.set(i, ch);
        if ch == 0 {
            assert(nul_in(buf@)(start + i));
            break;
        }
        assert(!nul_in(buf@)(start + i));
        i += 1;
    }
    entry.d_name.set(255, 0);
    entry.d_ino = read_le_u64(buf, pos);
    let off_bits = read_le_u64(buf, pos + 8);
    entry.d_off = #[verifier::truncate] (off_bits as i64);
    proof {
        reveal_with_fuel(le_value, 3);
    }
    entry.d_reclen = buf[pos + 16] as u16 + 256 * (buf[pos + 17] as u16);
    entry.d_type = buf[pos + 18];
}

/// A directory stream: the descriptor, the kernel records of the current
/// batch in `buf[pos..end]`, and the entry that `readdir` hands out.
pub struct DIR {
    fd: i32,
    pos: usize,
    end: usize,
    entry: dirent,
    buf: Vec<u8>,
}

/// What `readdir` needs next.
pub enum ReaddirAction {
    /// The batch is used up: the caller reads the next one (`getdents64`)
    /// and hands it to `DIR::on_fetch`.
    Fetch,
    /// A record was copied into the stream's entry.
    Entry,
    /// The record at the cursor does not fit in the buffer: no entry.
    End,
}

impl DIR {
    pub closed spec fn fd_of(&self) -> i32 {
        self.fd
    }

    pub closed spec fn pos_of(&self) -> int {
        self.pos as int
    }

    pub closed spec fn end_of(&self) -> int {
        self.end as int
    }

    pub closed spec fn buf_of(&self) -> Seq<u8> {
        self.buf@
    }

    pub closed spec fn entry_of(&self) -> dirent {
        self.entry
    }

    /// The buffer has its fixed size, the batch lies in it, and the entry's
    /// name field has its 256 bytes.
    pub closed spec fn wf(&self) -> bool {
        &&& self.buf@.len() == BUF_SIZE
        &&& self.end <= BUF_SIZE
        &&& self.entry.d_name@.len() == 256
    }

    /// A stream over the open directory `fd`, with no batch read yet.
    pub fn new(fd: i32) -> (r: DIR)
        ensures
            r.wf(),
            r.fd_of() == fd,
            r.pos_of() == 0,
            r.end_of() == 0,
    {
        let mut buf: Vec<u8> = Vec::new();
        let mut k: usize = 0;
        while k < BUF_SIZE
            invariant
                k <= BUF_SIZE,
                buf@.len() == k,
            decreases BUF_SIZE - k,
        {
            buf.push(0);
            k += 1;
        }
        DIR { fd, pos: 0, end: 0, entry: dirent::zeroed(), buf }
    }

    /// The entry that the last `Entry` step filled.
    pub fn entry(&self) -> (r: &dirent)
        ensures
            *r == self.entry_of(),
    {
        &self.entry
    }

    /// Takes the answer to a `getdents64` call into the stream's buffer:
    /// `n` is its result and `data` the buffer it filled. A result of zero
    /// (end of directory) or below (an error) leaves the stream as it was
    /// and returns `false`; otherwise the batch is `data[0..n]`.
    pub fn on_fetch(&mut self, n: isize, data: &[u8]) -> (r: bool)
        requires
            old(self).wf(),
            data@.len() == BUF_SIZE,
            n <= BUF_SIZE,
        ensures
            final(self).wf(),
            r == (n > 0),
            r ==> {
                &&& final(self).buf_of() == data@
                &&& final(self).pos_of() == 0
                &&& final(self).end_of() == n
                &&& final(self).fd_of() == old(self).fd_of()
                &&& final(self).entry_of() == old(self).entry_of()
            },
            !r ==> *final(self) == *old(self),
    {
        if n <= 0 {
            return false;
        }
        copy_batch(&mut self.buf, data);
        self.end = n as usize;
        self.pos = 0;
        true
    }
}

/// Overwrites the whole buffer with `data`.
fn copy_batch(buf: &mut Vec<u8>, data: &[u8])
    requires
        old(buf)@.len() == BUF_SIZE,
        data@.len() == BUF_SIZE,
    ensures
        final(buf)@ == data@,
{
    let mut k: usize = 0;
    while k < BUF_SIZE
        invariant
            k <= BUF_SIZE,
            data@.len() == BUF_SIZE,
            buf@.len() == BUF_SIZE,
            forall|j: int| 0 <= j < k ==> buf@[j] == data@[j],
        decreases BUF_SIZE - k,
    {
        buf.set(k, data[k]);
        k += 1;
    }
    assert(buf@ == data@);
}

/// One step of `readdir`. When the batch is used up (`pos >= end`) the
/// caller must fetch the next one. Otherwise the record at the cursor is
/// copied into the entry and the cursor moves past it by its `d_reclen`;
/// a record whose header or name runs past the buffer ends the stream's
/// output instead, with the stream unchanged.
pub fn readdir(dir: &mut DIR) -> (r: ReaddirAction)
    requires
        old(dir).wf(),
    ensures
        final(dir).wf(),
        final(dir).fd_of() == old(dir).fd_of(),
        final(dir).end_of() == old(dir).end_of(),
        final(dir).buf_of() == old(dir).buf_of(),
        old(dir).pos_of() >= old(dir).end_of() ==> r is Fetch && *final(dir) == *old(dir),
        old(dir).pos_of() < old(dir).end_of() ==> {
            if record_readable(old(dir).buf_of(), old(dir).pos_of()) {
                &&& r is Entry
                &&& entry_filled(old(dir).entry_of(), final(dir).entry_of(), old(dir).buf_of(), old(dir).pos_of())
                &&& final(dir).pos_of() == old(dir).pos_of() + final(dir).entry_of().d_reclen
            } else {
                r is End && *final(dir) == *old(dir)
            }
        },
{
    if dir.pos >= dir.end {
        return ReaddirAction::Fetch;
    }
    let pos = dir.pos;
    if !record_fits(&dir.buf, pos) {
        return ReaddirAction::End;
    }
    fill_dirent(&mut dir.entry, dir.buf.as_slice(), pos);
    dir.pos = pos + dir.entry.d_reclen as usize;
    ReaddirAction::Entry
}

/// Whether the record at `pos` can be read from `buf`.
fn record_fits(buf: &Vec<u8>, pos: usize) -> (r: bool)
    requires
        buf@.len() == BUF_SIZE,
        pos < BUF_SIZE,
    ensures
        r == record_readable(buf@, pos as int),
{
    if pos + NAME_OFFSET > buf.len() {
        return false;
    }
    let start = pos + NAME_OFFSET;
    let mut i: usize = start;
    while i < buf.len()
        invariant
            start <= i <= buf@.len(),
            start == pos + NAME_OFFSET,
            buf@.len() == BUF_SIZE,
            forall|k: int| start <= k < i ==> !#[trigger] nul_in(buf@)(k),
        decreases buf@.len() - i,
    {
        if buf[i] == 0 {
            proof {
                assert(nul_in(buf@)(i as int));
                lemma_scan_le(buf@.len() as int, nul_in(buf@), start as int, i as int);
            }
            return true;
        }
        i += 1;
    }
    proof {
        lemma_scan(buf@.len() as int, nul_in(buf@), start as int);
    }
    start + 255 <= buf.len()
}

/// `dirfd`: the stream's descriptor; a NULL stream fails with `EINVAL`.
pub fn dirfd(dir: Option<&DIR>) -> (r: Result<i32, i32>)
    ensures
        r == (match dir {
            Some(d) => Ok::<i32, i32>(d.fd_of()),
            None => Err::<i32, i32>(EINVAL),
        }),
{
    match dir {
        Some(d) => Ok(d.fd),
        None => Err(EINVAL),
    }
}

/// `closedir`: releases the stream and gives back the descriptor the caller
/// closes (the result of that close is `closedir`'s); a NULL stream fails
/// with `EBADF`.
pub fn closedir(dir: Option<DIR>) -> (r: Result<i32, i32>)
    ensures
        r == (match dir {
            Some(d) => Ok::<i32, i32>(d.fd_of()),
            None => Err::<i32, i32>(EBADF),
        }),
{
    match dir {
        Some(d) => Ok(d.fd),
        None => Err(EBADF),
    }
}

/// A record whose 19-byte header lies in the buffer, and whose name has a
/// NUL somewhere in the buffer, can be read: `readdir` delivers it.
pub proof fn lemma_terminated_record_readable(b: Seq<u8>, pos: int, k: int)
    requires
        0 <= pos,
        pos + NAME_OFFSET <= k < b.len(),
        b[k] == 0,
    ensures
        record_readable(b, pos),
{
    assert(nul_in(b)(k));
    lemma_scan_le(b.len() as int, nul_in(b), pos + NAME_OFFSET, k);
}

} // verus!
