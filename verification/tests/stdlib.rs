use rustlibc::message::render_decimal;
use rustlibc::sort::{bsearch, qsort, read_le_i32, ByComparator, I32Order};
use rustlibc::stdlib::{abs, atoi, atol, atoll, getenv, labs, strtol, strtoll, strtoul};

fn ints(v: &[i32]) -> Vec<u8> {
    v.iter().flat_map(|x| x.to_le_bytes()).collect()
}

#[test]
fn parse_ints() {
    assert_eq!(atoi(b"  -42xyz\0"), -42);
    assert_eq!(strtol(b"0x1F\0", 0).0, 31);
    assert_eq!(strtol(b"777\0", 8).0, 511);
}

#[test]
fn sort_then_search() {
    let mut arr = ints(&[5, 3, 1, 4, 2]);
    qsort(&mut arr, 5, 4, &I32Order);
    assert_eq!(arr, ints(&[1, 2, 3, 4, 5]));
    let key = ints(&[4]);
    let found = bsearch(&key, &arr, 5, 4, &I32Order);
    assert!(found.is_some());
    let k = found.unwrap();
    assert_eq!(read_le_i32(&arr[k * 4..k * 4 + 4]), 4);
}

#[test]
fn strtol_end_index_and_bases() {
    assert_eq!(strtol(b"  +12ab\0", 10), (12, 5));
    assert_eq!(strtol(b"0x\0", 16), (0, 2));
    assert_eq!(strtol(b"xyz\0", 10), (0, 0));
    assert_eq!(strtol(b"0777\0", 0), (511, 4));
    assert_eq!(strtol(b"zz\0", 36), (35 * 36 + 35, 2));
    assert_eq!(strtol(b"-0x10\0", 0), (-16, 5));
    assert_eq!(strtoll(b"\t\n 99\0", 10), (99, 5));
}

#[test]
fn strtoul_reinterprets_negative() {
    assert_eq!(strtoul(b"-1\0", 10), (u64::MAX, 2));
    assert_eq!(strtoul(b"ff\0", 16), (255, 2));
}

#[test]
fn ato_family() {
    assert_eq!(atoi(b"2147483647\0"), i32::MAX);
    assert_eq!(atol(b"-9000000000\0"), -9_000_000_000);
    assert_eq!(atoll(b"12junk\0"), 12);
    assert_eq!(atoi(b"\0"), 0);
}

#[test]
fn rendered_numbers_parse_back() {
    for n in [0u32, 7, 10, 65535, 2147483647] {
        let mut text = render_decimal(n);
        text.push(0);
        assert_eq!(atoi(&text), n as i32);
        assert_eq!(strtol(&text, 10).0, n as i64);
    }
}

#[test]
fn abs_values() {
    assert_eq!(abs(-5), 5);
    assert_eq!(abs(5), 5);
    assert_eq!(abs(i32::MIN), i32::MIN);
    assert_eq!(labs(-7), 7);
    assert_eq!(labs(i64::MIN), i64::MIN);
}

#[test]
fn getenv_finds_nothing() {
    assert_eq!(getenv(b"PATH\0"), None);
}

#[test]
fn qsort_keeps_tail_and_multiset() {
    let mut arr = ints(&[3, -1, 3, 0]);
    arr.extend_from_slice(&[0xaa, 0xbb]);
    qsort(&mut arr, 4, 4, &I32Order);
    assert_eq!(&arr[..16], &ints(&[-1, 0, 3, 3])[..]);
    assert_eq!(&arr[16..], &[0xaa, 0xbb]);
}

#[test]
fn qsort_short_arrays_unchanged() {
    let mut one = ints(&[9]);
    qsort(&mut one, 1, 4, &I32Order);
    assert_eq!(one, ints(&[9]));
    let mut zero_size = vec![3u8, 1, 2];
    qsort(&mut zero_size, 3, 0, &I32Order);
    assert_eq!(zero_size, vec![3, 1, 2]);
}

#[test]
fn bsearch_absent_and_edges() {
    let arr = ints(&[1, 3, 5, 7]);
    assert_eq!(bsearch(&ints(&[4]), &arr, 4, 4, &I32Order), None);
    assert_eq!(bsearch(&ints(&[1]), &arr, 4, 4, &I32Order), Some(0));
    assert_eq!(bsearch(&ints(&[7]), &arr, 4, 4, &I32Order), Some(3));
    assert_eq!(bsearch(&ints(&[1]), &arr, 0, 4, &I32Order), None);
}

#[test]
fn sort_and_search_by_closure() {
    let by_first_byte = ByComparator::new(|a: &[u8], b: &[u8]| a[0] as i32 - b[0] as i32);
    let mut arr = vec![9u8, 1, 3, 7, 5];
    qsort(&mut arr, 5, 1, &by_first_byte);
    assert_eq!(arr, vec![1, 3, 5, 7, 9]);
    assert_eq!(bsearch(&[7u8], &arr, 5, 1, &by_first_byte), Some(3));
    assert_eq!(bsearch(&[4u8], &arr, 5, 1, &by_first_byte), None);
}
