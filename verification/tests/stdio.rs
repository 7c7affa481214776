use rustlibc::errno::{EBADF, ENOENT, ENOSYS};
use rustlibc::stdio::{
    clearerr, fclose_action, feof, ferror, fflush, fileno, fopen, fputc_byte, fputc_result,
    fputs_result, fread_finish, fwrite_count, perror_message, printf_result, puts_result,
    transfer_total, write_all_record, write_all_step, CloseAction, WriteProgress, WriteStep, EOF,
    FILE,
};

#[test]
fn new_stream_has_clear_flags() {
    let f = FILE::new(5);
    assert_eq!(fileno(Some(&f)), Ok(5));
    assert_eq!(ferror(Some(&f)), 0);
    assert_eq!(feof(Some(&f)), 0);
    assert_eq!(fileno(None), Err(EBADF));
    assert_eq!(ferror(None), 0);
    assert_eq!(feof(None), 0);
    assert_eq!(fflush(Some(&f)), 0);
    assert_eq!(fflush(None), 0);
}

#[test]
fn fread_flags_then_clearerr() {
    let mut f = FILE::new(3);
    assert_eq!(fread_finish(&mut f, 0, 4), 0);
    assert_eq!(feof(Some(&f)), 1);
    assert_eq!(fread_finish(&mut f, -1, 4), 0);
    assert_eq!(ferror(Some(&f)), 1);
    clearerr(&mut f);
    assert_eq!(ferror(Some(&f)), 0);
    assert_eq!(feof(Some(&f)), 0);
    assert_eq!(fileno(Some(&f)), Ok(3));
    assert_eq!(fread_finish(&mut f, 10, 4), 2);
}

#[test]
fn write_all_loop() {
    let mut f = FILE::new(1);
    let mut off = 0usize;
    let len = 10usize;
    let answers = [4isize, 6];
    let mut k = 0;
    let total = loop {
        match write_all_step(off, len) {
            WriteStep::Write { offset, count } => {
                assert_eq!(offset, off);
                assert_eq!(count, len - off);
                match write_all_record(&mut f, off, len, answers[k]) {
                    WriteProgress::Continue(o) => off = o,
                    WriteProgress::Finished(n) => break n,
                }
                k += 1;
            }
            WriteStep::Done(n) => break n,
        }
    };
    assert_eq!(total, 10);
    assert_eq!(ferror(Some(&f)), 0);
}

#[test]
fn write_failure_and_zero_write() {
    let mut f = FILE::new(1);
    assert!(matches!(write_all_record(&mut f, 3, 10, 0), WriteProgress::Finished(3)));
    assert_eq!(ferror(Some(&f)), 0);
    assert!(matches!(write_all_record(&mut f, 3, 10, -1), WriteProgress::Finished(-1)));
    assert_eq!(ferror(Some(&f)), 1);
    assert!(matches!(write_all_step(0, 0), WriteStep::Done(0)));
}

#[test]
fn element_counts() {
    assert_eq!(transfer_total(4, 3), Some(12));
    assert_eq!(transfer_total(0, 3), None);
    assert_eq!(transfer_total(usize::MAX, 2), None);
    assert_eq!(fwrite_count(12, 4), 3);
    assert_eq!(fwrite_count(13, 4), 3);
    assert_eq!(fwrite_count(-1, 4), 0);
}

#[test]
fn character_output_results() {
    assert_eq!(fputs_result(5), 0);
    assert_eq!(fputs_result(-1), EOF);
    assert_eq!(fputc_byte(0x141), 0x41);
    assert_eq!(fputc_result(1, 0x1ff), 0xff);
    assert_eq!(fputc_result(-1, 0x41), EOF);
    assert_eq!(puts_result(0, 10), 0);
    assert_eq!(puts_result(EOF, 10), EOF);
    assert_eq!(puts_result(0, EOF), EOF);
    assert_eq!(printf_result(7), 7);
    assert_eq!(printf_result(-3), -1);
}

#[test]
fn fclose_decisions() {
    assert!(matches!(fclose_action(None), CloseAction::Return(EOF)));
    assert!(matches!(fclose_action(Some(&FILE::new(2))), CloseAction::Return(0)));
    assert!(matches!(fclose_action(Some(&FILE::new(7))), CloseAction::Close(7)));
}

#[test]
fn fopen_not_provided() {
    assert!(matches!(fopen(b"/tmp/x\0", b"r\0"), Err(e) if e == ENOSYS));
}

#[test]
fn perror_text() {
    assert_eq!(perror_message(Some(b"open\0"), ENOENT), b"open: No such file or directory\n".to_vec());
    assert_eq!(perror_message(None, ENOENT), b"No such file or directory\n".to_vec());
    assert_eq!(perror_message(Some(b"\0"), 9999), b"Unknown error\n".to_vec());
}
