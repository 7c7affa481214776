use rustlibc::string::{
    bcmp, byte_diff, memchr, memcmp, memcpy, memmove, memrchr, memset, strcat, strchr, strcmp,
    strcpy, strcspn, strdup, strerror, strlen, strncat, strncmp, strncpy, strndup, strnlen,
    strpbrk, strrchr, strspn, strstr,
};

#[test]
fn strlen_and_cmp() {
    let a = b"hello\0";
    let b = b"help\0";
    assert_eq!(strlen(a), 5);
    assert!(strcmp(a, b) < 0);
    assert_eq!(strncmp(a, b, 3), 0);
}

#[test]
fn memmove_overlap() {
    let mut buf = *b"abcdef";
    memmove(&mut buf, 1, 0, 3);
    assert_eq!(&buf, b"aabcef");
}

#[test]
fn strchr_strstr() {
    let s = b"a needle here\0";
    let n = b"needle\0";
    assert!(strstr(s, n).is_some());
    assert_eq!(strchr(s, b'n' as i32), Some(2));
}

#[test]
fn memmove_forward_overlap() {
    let mut buf = *b"abcdef";
    memmove(&mut buf, 0, 2, 4);
    assert_eq!(&buf, b"cdefef");
}

#[test]
fn strnlen_bounds() {
    assert_eq!(strnlen(b"hello\0", 3), 3);
    assert_eq!(strnlen(b"hi\0", 10), 2);
    assert_eq!(strnlen(b"abcd", 4), 4);
}

#[test]
fn memcpy_then_memcmp_is_zero() {
    let mut dest = [9u8; 6];
    let src = *b"xyz";
    memcpy(&mut dest, &src, 3);
    assert_eq!(&dest, b"xyz\x09\x09\x09");
    assert_eq!(memcmp(&dest, &src, 3), 0);
}

#[test]
fn memcmp_reads_bytes_unsigned() {
    assert!(memcmp(b"\x80", b"\x01", 1) > 0);
    assert_eq!(memcmp(b"ab", b"ac", 2), -1);
    assert_eq!(memcmp(b"ab", b"ac", 1), 0);
    assert_eq!(bcmp(b"ab", b"ac", 2), -1);
    assert_eq!(byte_diff(0xff, 0x00), 255);
}

#[test]
fn memset_fills_low_byte() {
    let mut d = [0u8; 5];
    memset(&mut d, 0x141, 3);
    assert_eq!(d, [0x41, 0x41, 0x41, 0, 0]);
}

#[test]
fn memchr_and_memrchr() {
    let s = b"abcabc";
    assert_eq!(memchr(s, b'c' as i32, 6), Some(2));
    assert_eq!(memchr(s, b'c' as i32, 2), None);
    assert_eq!(memrchr(s, b'a' as i32, 6), Some(3));
    assert_eq!(memrchr(s, b'z' as i32, 6), None);
}

#[test]
fn strcmp_signs_and_equality() {
    assert_eq!(strcmp(b"abc\0", b"abc\0"), 0);
    assert_eq!(strcmp(b"ab\0", b"abc\0"), -(b'c' as i32));
    assert_eq!(strcmp(b"abc\0", b"ab\0"), b'c' as i32);
    assert_eq!(strcmp(b"\xff\0", b"a\0"), 0xff - b'a' as i32);
    assert_eq!(strncmp(b"abX\0", b"abY\0", 2), 0);
    assert!(strncmp(b"abX\0", b"abY\0", 3) < 0);
}

#[test]
fn strcmp_is_antisymmetric_on_samples() {
    let pairs: [(&[u8], &[u8]); 3] = [(b"apple\0", b"apply\0"), (b"a\0", b"\0"), (b"x\0", b"x\0")];
    for (a, b) in pairs {
        assert_eq!(strcmp(a, b), -strcmp(b, a));
    }
}

#[test]
fn strcpy_reads_back() {
    let mut d = [7u8; 8];
    strcpy(&mut d, b"hey\0");
    assert_eq!(&d, b"hey\0\x07\x07\x07\x07");
    assert_eq!(strcmp(&d, b"hey\0"), 0);
}

#[test]
fn strncpy_pads_and_truncates() {
    let mut d = [7u8; 6];
    strncpy(&mut d, b"ab\0", 5);
    assert_eq!(d, [b'a', b'b', 0, 0, 0, 7]);
    let mut e = [7u8; 4];
    strncpy(&mut e, b"abcdef\0", 3);
    assert_eq!(e, [b'a', b'b', b'c', 7]);
}

#[test]
fn strcat_concatenates() {
    let mut d = [0u8; 10];
    d[..3].copy_from_slice(b"ab\0");
    strcat(&mut d, b"cde\0");
    assert_eq!(&d[..6], b"abcde\0");
    assert_eq!(strlen(&d), 5);
}

#[test]
fn strncat_limits_and_terminates() {
    let mut d = [1u8; 8];
    d[..2].copy_from_slice(b"x\0");
    strncat(&mut d, b"yzw\0", 2);
    assert_eq!(&d[..4], b"xyz\0");
}

#[test]
fn strchr_finds_terminator_and_misses() {
    let s = b"abc\0";
    assert_eq!(strchr(s, 0), Some(3));
    assert_eq!(strchr(s, b'z' as i32), None);
    assert_eq!(strrchr(b"abcabc\0", b'b' as i32), Some(4));
    assert_eq!(strrchr(b"abc\0", 0), Some(3));
    assert_eq!(strrchr(b"abc\0", b'q' as i32), None);
}

#[test]
fn strstr_first_match_and_empty_needle() {
    assert_eq!(strstr(b"aaab\0", b"ab\0"), Some(2));
    assert_eq!(strstr(b"abc\0", b"\0"), Some(0));
    assert_eq!(strstr(b"abc\0", b"abcd\0"), None);
}

#[test]
fn span_functions() {
    assert_eq!(strspn(b"aabbc\0", b"ab\0"), 4);
    assert_eq!(strcspn(b"hello world\0", b" o\0"), 4);
    assert_eq!(strcspn(b"abc\0", b"\0"), 3);
    assert_eq!(strpbrk(b"hello\0", b"lo\0"), Some(2));
    assert_eq!(strpbrk(b"hello\0", b"xyz\0"), None);
}

#[test]
fn dup_functions() {
    assert_eq!(strdup(b"hi\0there"), b"hi\0".to_vec());
    assert_eq!(strndup(b"hello\0", 3), b"hel\0".to_vec());
    assert_eq!(strndup(b"hi\0", 8), b"hi\0".to_vec());
}

#[test]
fn strerror_messages_are_c_strings() {
    assert_eq!(strerror(2), "No such file or directory\0");
    assert_eq!(strerror(38), "Function not implemented\0");
    assert_eq!(strerror(-5), "Unknown error\0");
    for e in -3..200 {
        let m = strerror(e).as_bytes();
        assert_eq!(m.last(), Some(&0u8));
        assert_eq!(strlen(m), m.len() - 1);
    }
}
