use rustlibc::printf::{vformat, FmtArg};

fn fmt(f: &str, args: Vec<FmtArg>) -> String {
    String::from_utf8(vformat(f.as_bytes(), &args)).unwrap()
}

fn num(v: i64) -> FmtArg {
    FmtArg::Int(v)
}

fn text(s: &str) -> FmtArg {
    FmtArg::Str(s.as_bytes().to_vec())
}

#[test]
fn plain_text_and_percent() {
    assert_eq!(fmt("hello", vec![]), "hello");
    assert_eq!(fmt("100%%", vec![]), "100%");
    assert_eq!(fmt("100%", vec![]), "100%");
    assert_eq!(fmt("", vec![]), "");
}

#[test]
fn signed_decimal() {
    assert_eq!(fmt("a%db", vec![num(-42)]), "a-42b");
    assert_eq!(fmt("%i", vec![num(0)]), "0");
    assert_eq!(fmt("%5d|", vec![num(42)]), "   42|");
    assert_eq!(fmt("%-5d|", vec![num(42)]), "42   |");
    assert_eq!(fmt("%05d", vec![num(-42)]), "-0042");
    assert_eq!(fmt("%+d % d", vec![num(7), num(7)]), "+7  7");
    assert_eq!(fmt("%.3d", vec![num(7)]), "007");
    assert_eq!(fmt("[%.0d]", vec![num(0)]), "[]");
    assert_eq!(fmt("%08.3d", vec![num(5)]), "     005");
}

#[test]
fn integer_widths() {
    assert_eq!(fmt("%hhd", vec![num(300)]), "44");
    assert_eq!(fmt("%hd", vec![num(70000)]), "4464");
    assert_eq!(fmt("%d", vec![num(4294967301)]), "5");
    assert_eq!(fmt("%u", vec![num(-1)]), "4294967295");
    assert_eq!(fmt("%lu", vec![num(-1)]), "18446744073709551615");
    assert_eq!(fmt("%ld", vec![num(i64::MIN)]), "-9223372036854775808");
    assert_eq!(fmt("%lld %zu", vec![num(-3), num(3)]), "-3 3");
}

#[test]
fn other_bases() {
    assert_eq!(fmt("%x %X", vec![num(255), num(255)]), "ff FF");
    assert_eq!(fmt("%#x %#X %#x", vec![num(255), num(255), num(0)]), "0xff 0XFF 0");
    assert_eq!(fmt("%o %#o %#o", vec![num(8), num(8), num(0)]), "10 010 0");
    assert_eq!(fmt("%#08x", vec![num(255)]), "0x0000ff");
    assert_eq!(fmt("%p", vec![num(0x1000)]), "0x1000");
}

#[test]
fn characters_and_strings() {
    assert_eq!(fmt("%c%3c", vec![num(65), num(66)]), "A  B");
    assert_eq!(fmt("%s!", vec![text("hi")]), "hi!");
    assert_eq!(fmt("%.1s", vec![text("hi")]), "h");
    assert_eq!(fmt("%4s|%-4s|", vec![text("hi"), text("hi")]), "  hi|hi  |");
    assert_eq!(fmt("str=%.4s", vec![text("truncate")]), "str=trun");
}

#[test]
fn mismatched_and_missing_arguments() {
    assert_eq!(fmt("%d", vec![]), "%d");
    assert_eq!(fmt("%f %d", vec![num(1)]), "%f 1");
    assert_eq!(fmt("%d", vec![text("x")]), "0");
    assert_eq!(fmt("[%s]", vec![num(3)]), "[]");
}

#[test]
fn widths_are_capped() {
    assert_eq!(fmt("%9999d", vec![num(1)]).len(), 4096);
}
