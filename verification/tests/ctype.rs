use rustlibc::ctype::{
    as_byte, isalnum, isalpha, isascii, isblank, iscntrl, isdigit, isgraph, islower, isprint,
    ispunct, isspace, isupper, isxdigit, toascii, tolower, toupper,
};

#[test]
fn classification() {
    assert_ne!(isalpha(b'a' as i32), 0);
    assert_eq!(isalpha(b'1' as i32), 0);
    assert_ne!(isdigit(b'7' as i32), 0);
    assert_ne!(isspace(b'\n' as i32), 0);
    assert_eq!(isspace(b'x' as i32), 0);
    assert_eq!(isalpha(-1), 0);
}

#[test]
fn conversion() {
    assert_eq!(tolower(b'A' as i32), b'a' as i32);
    assert_eq!(toupper(b'z' as i32), b'Z' as i32);
    assert_eq!(tolower(b'5' as i32), b'5' as i32);
}

#[test]
fn as_byte_range() {
    assert_eq!(as_byte(0), Some(0));
    assert_eq!(as_byte(255), Some(255));
    assert_eq!(as_byte(256), None);
    assert_eq!(as_byte(-1), None);
}

#[test]
fn every_class_on_samples() {
    assert_ne!(isalnum(b'z' as i32), 0);
    assert_ne!(isalnum(b'0' as i32), 0);
    assert_eq!(isalnum(b'_' as i32), 0);
    assert_ne!(isupper(b'Q' as i32), 0);
    assert_eq!(isupper(b'q' as i32), 0);
    assert_ne!(islower(b'q' as i32), 0);
    assert_ne!(isxdigit(b'f' as i32), 0);
    assert_ne!(isxdigit(b'F' as i32), 0);
    assert_eq!(isxdigit(b'g' as i32), 0);
    assert_ne!(iscntrl(0x7f), 0);
    assert_ne!(iscntrl(0x1f), 0);
    assert_eq!(iscntrl(b' ' as i32), 0);
    assert_ne!(isgraph(b'!' as i32), 0);
    assert_eq!(isgraph(b' ' as i32), 0);
    assert_ne!(isprint(b' ' as i32), 0);
    assert_eq!(isprint(0x7f), 0);
    assert_ne!(ispunct(b'~' as i32), 0);
    assert_eq!(ispunct(b'a' as i32), 0);
    assert_ne!(isblank(b'\t' as i32), 0);
    assert_eq!(isblank(b'\n' as i32), 0);
    assert_ne!(isspace(0x0b), 0);
    assert_ne!(isspace(0x0c), 0);
    assert_ne!(isspace(b'\r' as i32), 0);
}

#[test]
fn non_ascii_bytes_are_in_no_class() {
    for c in 128..=255 {
        assert_eq!(isalpha(c), 0);
        assert_eq!(isprint(c), 0);
        assert_eq!(isspace(c), 0);
    }
    assert_eq!(isdigit(1000), 0);
}

#[test]
fn ascii_helpers() {
    assert_ne!(isascii(0x7f), 0);
    assert_eq!(isascii(0x80), 0);
    assert_eq!(isascii(-1), 0);
    assert_eq!(toascii(0xc1), 0x41);
    assert_eq!(toascii(-1), 127);
}

#[test]
fn case_round_trip_on_letters() {
    for c in b'a'..=b'z' {
        assert_eq!(tolower(toupper(c as i32)), c as i32);
    }
    for c in b'A'..=b'Z' {
        assert_eq!(toupper(tolower(c as i32)), c as i32);
    }
    assert_eq!(tolower(-1), -1);
    assert_eq!(toupper(300), 300);
}

#[test]
fn class_structure_on_all_bytes() {
    for c in 0..=255 {
        let alpha = isalpha(c) != 0;
        let digit = isdigit(c) != 0;
        assert_eq!(isalnum(c) != 0, alpha || digit);
        assert_eq!(alpha, isupper(c) != 0 || islower(c) != 0);
        assert_eq!(isgraph(c) != 0, ispunct(c) != 0 || isalnum(c) != 0);
        assert_eq!(isprint(c) != 0, isgraph(c) != 0 || c == b' ' as i32);
    }
}
