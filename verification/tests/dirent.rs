use rustlibc::dirent::{closedir, dirent, dirfd, readdir, ReaddirAction, BUF_SIZE, DIR, DT_DIR, DT_REG};
use rustlibc::errno::{EBADF, EINVAL};

fn record(ino: u64, off: i64, reclen: u16, kind: u8, name: &[u8]) -> Vec<u8> {
    let mut r = Vec::new();
    r.extend_from_slice(&ino.to_le_bytes());
    r.extend_from_slice(&off.to_le_bytes());
    r.extend_from_slice(&reclen.to_le_bytes());
    r.push(kind);
    r.extend_from_slice(name);
    r.push(0);
    while r.len() < reclen as usize {
        r.push(0);
    }
    r
}

fn name_of(e: &dirent) -> Vec<u8> {
    let end = e.d_name.iter().position(|&b| b == 0).unwrap();
    e.d_name[..end].to_vec()
}

#[test]
fn zeroed_entry() {
    let e = dirent::zeroed();
    assert_eq!(e.d_ino, 0);
    assert_eq!(e.d_name.len(), 256);
    assert!(e.d_name.iter().all(|&b| b == 0));
}

#[test]
fn readdir_walks_a_batch() {
    let mut dir = DIR::new(9);
    assert!(matches!(readdir(&mut dir), ReaddirAction::Fetch));
    let mut batch = record(11, 1, 24, DT_DIR, b".");
    batch.extend(record(12, 2, 32, DT_REG, b"notes.txt"));
    let n = batch.len();
    batch.resize(BUF_SIZE, 0);
    assert!(dir.on_fetch(n as isize, &batch));

    assert!(matches!(readdir(&mut dir), ReaddirAction::Entry));
    assert_eq!(dir.entry().d_ino, 11);
    assert_eq!(dir.entry().d_off, 1);
    assert_eq!(dir.entry().d_reclen, 24);
    assert_eq!(dir.entry().d_type, DT_DIR);
    assert_eq!(name_of(dir.entry()), b".".to_vec());

    assert!(matches!(readdir(&mut dir), ReaddirAction::Entry));
    assert_eq!(dir.entry().d_ino, 12);
    assert_eq!(dir.entry().d_type, DT_REG);
    assert_eq!(name_of(dir.entry()), b"notes.txt".to_vec());

    assert!(matches!(readdir(&mut dir), ReaddirAction::Fetch));
    assert!(!dir.on_fetch(0, &vec![0u8; BUF_SIZE]));
    assert!(!dir.on_fetch(-1, &vec![0u8; BUF_SIZE]));
    assert!(matches!(readdir(&mut dir), ReaddirAction::Fetch));
}

#[test]
fn readdir_large_numbers_little_endian() {
    let mut dir = DIR::new(3);
    let mut batch = record(0x0102_0304_0506_0708, -2, 40, DT_REG, b"x");
    let n = batch.len();
    batch.resize(BUF_SIZE, 0);
    assert!(dir.on_fetch(n as isize, &batch));
    assert!(matches!(readdir(&mut dir), ReaddirAction::Entry));
    assert_eq!(dir.entry().d_ino, 0x0102_0304_0506_0708);
    assert_eq!(dir.entry().d_off, -2);
    assert_eq!(dir.entry().d_reclen, 40);
}

#[test]
fn long_names_are_cut_at_255() {
    let mut dir = DIR::new(3);
    let long = vec![b'a'; 300];
    let mut batch = record(1, 1, 328, DT_REG, &long);
    let n = batch.len();
    batch.resize(BUF_SIZE, 0);
    assert!(dir.on_fetch(n as isize, &batch));
    assert!(matches!(readdir(&mut dir), ReaddirAction::Entry));
    assert_eq!(name_of(dir.entry()).len(), 255);
    assert_eq!(dir.entry().d_name[255], 0);
}

#[test]
fn record_running_past_buffer_ends() {
    let mut dir = DIR::new(3);
    let first_len = (BUF_SIZE - 25) as u16;
    let mut batch = record(1, 1, first_len, DT_REG, b"a");
    let mut tail = vec![b'q'; 25];
    tail[16..18].copy_from_slice(&25u16.to_le_bytes());
    batch.extend(tail);
    assert_eq!(batch.len(), BUF_SIZE);
    assert!(dir.on_fetch(BUF_SIZE as isize, &batch));
    assert!(matches!(readdir(&mut dir), ReaddirAction::Entry));
    assert_eq!(name_of(dir.entry()), b"a".to_vec());
    assert!(matches!(readdir(&mut dir), ReaddirAction::End));
    assert!(matches!(readdir(&mut dir), ReaddirAction::End));
}

#[test]
fn dirfd_and_closedir() {
    let dir = DIR::new(17);
    assert_eq!(dirfd(Some(&dir)), Ok(17));
    assert_eq!(dirfd(None), Err(EINVAL));
    assert_eq!(closedir(Some(dir)), Ok(17));
    assert_eq!(closedir(None), Err(EBADF));
}
