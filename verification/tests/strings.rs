use rustlibc::strings::{bcopy, bzero, ffs, strcasecmp, strncasecmp};

#[test]
fn casecmp() {
    assert_eq!(strcasecmp(b"Hello\0", b"hELLO\0"), 0);
}

#[test]
fn ffs_basic() {
    assert_eq!(ffs(0), 0);
    assert_eq!(ffs(1), 1);
    assert_eq!(ffs(0b1000), 4);
}

#[test]
fn ffs_high_bits() {
    assert_eq!(ffs(i32::MIN), 32);
    assert_eq!(ffs(-1), 1);
    assert_eq!(ffs(0x0001_0000), 17);
}

#[test]
fn casecmp_orders_by_folded_bytes() {
    assert_eq!(strcasecmp(b"ABC\0", b"abd\0"), b'c' as i32 - b'd' as i32);
    assert_eq!(strcasecmp(b"abd\0", b"ABC\0"), b'd' as i32 - b'c' as i32);
    assert!(strcasecmp(b"ab\0", b"AB_\0") < 0);
    assert_eq!(strncasecmp(b"HELLOx\0", b"helloY\0", 5), 0);
    assert_ne!(strncasecmp(b"HELLOx\0", b"helloY\0", 6), 0);
}

#[test]
fn casecmp_antisymmetric_on_samples() {
    let pairs: [(&[u8], &[u8]); 3] = [(b"Zeta\0", b"alpha\0"), (b"[\0", b"a\0"), (b"Q\0", b"q\0")];
    for (a, b) in pairs {
        assert_eq!(strcasecmp(a, b), -strcasecmp(b, a));
    }
}

#[test]
fn bzero_and_bcopy() {
    let mut b = *b"abcdef";
    bzero(&mut b, 2);
    assert_eq!(&b, b"\0\0cdef");
    let mut c = *b"abcdef";
    bcopy(&mut c, 0, 2, 3);
    assert_eq!(&c, b"ababcf");
}
